//! What becomes of the batches of blocks that a peer delivers.

use vstd::prelude::*;

use crate::block::BlockModel;
use crate::ledger::ChainLedger;
use crate::model::ChainModel;
use crate::node::NodeModel;
use crate::params::{ParamsModel, BASE_TARGET_BLOCK_MS, DAA_WINDOW, FINALITY_DEPTH};
use crate::session::{PeerSession, SyncStep};
use crate::sync::{RelayLock, SYNCED_MAX_REORG};

verus! {

/// Whether blocks follow one another and leave a chain right after its block at
/// `fork`: the first names that block, and none of them is a block of the chain.
pub open spec fn branches_off(chain: ChainModel, blocks: Seq<BlockModel>, fork: u64) -> bool {
    &&& blocks.len() > 0
    &&& blocks[0].prev_hash == chain.stored[fork].hash
    &&& forall|i: int| 0 <= i < blocks.len() ==> (#[trigger] blocks[i]).index == fork + 1 + i
    &&& forall|i: int|
        0 < i < blocks.len() ==> (#[trigger] blocks[i]).prev_hash == blocks[i - 1].hash
    &&& forall|i: int|
        0 <= i < blocks.len() && (#[trigger] blocks[i]).index <= chain.height ==> blocks[i].hash
            != chain.stored[blocks[i].index].hash
}

/// Whether the chain has reached a checkpoint above `fork`.
pub open spec fn checkpoint_above(chain: ChainModel, fork: u64, params: ParamsModel) -> bool {
    exists|i: int|
        0 <= i < params.checkpoints.len() && fork < (#[trigger] params.checkpoints[i]).height
            <= chain.height
}

proof fn lemma_fork_is_found(chain: ChainModel, blocks: Seq<BlockModel>, fork: u64, n: int)
    requires
        chain.linked(),
        fork < chain.height,
        branches_off(chain, blocks, fork),
        1 <= n <= blocks.len(),
    ensures
        chain.fork_point_among(blocks, n) == Some(fork),
    decreases n,
{
    assert(chain.stored.dom().contains(fork));
    let last = blocks[n - 1];
    assert(last.index == fork + 1 + (n - 1));
    if last.index <= chain.height {
        assert(chain.stored.dom().contains(last.index));
    }
    if n > 1 {
        lemma_fork_is_found(chain, blocks, fork, n - 1);
        let prior = blocks[n - 2];
        assert(prior.index == fork + 1 + (n - 2));
        assert(last.prev_hash == prior.hash);
        if prior.index <= chain.height {
            assert(chain.stored.dom().contains(prior.index));
        }
        assert(chain.meets(last) is None);
    } else {
        assert(chain.meets(last) == Some(fork));
        assert(chain.fork_point_among(blocks, 0) is None);
    }
}

proof fn lemma_top(blocks: Seq<BlockModel>, n: int, i: int)
    requires
        0 <= i < n <= blocks.len(),
    ensures
        crate::batch::top_index(blocks, n) >= blocks[i].index,
    decreases n,
{
    if i < n - 1 {
        lemma_top(blocks, n - 1, i);
    }
}

/// A batch whose first block does not follow the tip leaves the chain as it is at
/// first.
proof fn lemma_first_refused<L: ChainLedger>(
    node: NodeModel<L>,
    blocks: Seq<BlockModel>,
)
    requires
        blocks.len() > 0,
        !(blocks[0].index == node.chain.stored[node.chain.height].index + 1
            && blocks[0].prev_hash == node.chain.stored[node.chain.height].hash),
    ensures
        ({
            let b = crate::batch::batch::<L>(
                node.chain,
                node.ledger,
                blocks,
                None,
                node.params,
                blocks.len() as int,
            );
            b.chain == node.chain && b.ledger == node.ledger && b.applied == 0 && !b.ok
                && !b.stuck
        }),
{
    reveal_with_fuel(crate::batch::batch, 2);
    let one = crate::batch::batch::<L>(node.chain, node.ledger, blocks, None, node.params, 1);
    assert(!one.ok && !one.stuck && one.chain == node.chain);
    crate::batch::lemma_ended_batch_stays::<L>(
        node.chain,
        node.ledger,
        blocks,
        None,
        node.params,
        1,
        blocks.len() as int,
    );
}

proof fn lemma_nothing_skipped<L: ChainLedger>(
    chain: ChainModel,
    ledger: L::Model,
    blocks: Seq<BlockModel>,
    low: u64,
    params: ParamsModel,
    n: int,
)
    requires
        n <= blocks.len(),
        forall|i: int| 0 <= i < blocks.len() ==> (#[trigger] blocks[i]).index > low,
    ensures
        crate::batch::batch::<L>(chain, ledger, blocks, Some(low), params, n)
            == crate::batch::batch::<L>(chain, ledger, blocks, None, params, n),
    decreases n,
{
    if n > 0 {
        lemma_nothing_skipped::<L>(chain, ledger, blocks, low, params, n - 1);
        assert(blocks[n - 1].index > low);
    }
}

/// Whether the first `j` blocks of a batch are acceptable in their turn, and the next
/// one, if there is one, is not.
pub open spec fn acceptable_up_to<L: ChainLedger>(
    chain: ChainModel,
    ledger: L::Model,
    blocks: Seq<BlockModel>,
    params: ParamsModel,
    j: int,
) -> bool {
    &&& 0 <= j <= blocks.len()
    &&& crate::node_laws::acceptable::<L>(chain, ledger, blocks.take(j), params)
    &&& j < blocks.len() ==> {
        let before = crate::batch::batch::<L>(chain, ledger, blocks.take(j), None, params, j);
        !crate::apply::ibd_effect::<L>(before.chain, before.ledger, blocks[j], params).2
    }
}

proof fn lemma_batch_prefix<L: ChainLedger>(
    chain: ChainModel,
    ledger: L::Model,
    a: Seq<BlockModel>,
    b: Seq<BlockModel>,
    params: ParamsModel,
    n: int,
)
    requires
        n <= a.len(),
        n <= b.len(),
        forall|i: int| 0 <= i < n ==> a[i] == b[i],
    ensures
        crate::batch::batch::<L>(chain, ledger, a, None, params, n) == crate::batch::batch::<L>(
            chain,
            ledger,
            b,
            None,
            params,
            n,
        ),
    decreases n,
{
    if n > 0 {
        lemma_batch_prefix::<L>(chain, ledger, a, b, params, n - 1);
    }
}

proof fn lemma_taken_up_to<L: ChainLedger>(
    chain: ChainModel,
    ledger: L::Model,
    blocks: Seq<BlockModel>,
    params: ParamsModel,
    j: int,
)
    requires
        chain.sound(),
        acceptable_up_to::<L>(chain, ledger, blocks, params, j),
    ensures
        ({
            let some = crate::batch::batch::<L>(chain, ledger, blocks.take(j), None, params, j);
            let b = crate::batch::batch::<L>(
                chain,
                ledger,
                blocks,
                None,
                params,
                blocks.len() as int,
            );
            &&& b.chain == some.chain
            &&& b.ledger == some.ledger
            &&& b.applied == j
            &&& !b.stuck
            &&& b.ok == (j == blocks.len())
            &&& b.chain.height == chain.height + j
            &&& j > 0 ==> b.chain.tip() == blocks[j - 1]
            &&& b.chain.sound()
        }),
{
    let some = blocks.take(j);
    crate::node_laws::lemma_whole_batch::<L>(chain, ledger, some, params, j);
    crate::batch::lemma_batch_sound::<L>(chain, ledger, some, None, params, j);
    lemma_batch_prefix::<L>(chain, ledger, some, blocks, params, j);
    if j < blocks.len() {
        crate::batch::lemma_ended_batch_stays::<L>(
            chain,
            ledger,
            blocks,
            None,
            params,
            j + 1,
            blocks.len() as int,
        );
    }
    assert(j > 0 ==> some[j - 1] == blocks[j - 1]);
}

/// A longer branch is taken: a node that has its chain in memory gives up its blocks
/// above the fork and takes those of the branch, as far as they are acceptable in their
/// turn. If all of them are, the last block of the batch is its tip. A node without
/// final blocks does so however deep the fork lies, any other only for a few blocks, and
/// neither below a checkpoint.
pub proof fn law_a_longer_branch_is_taken<L: ChainLedger>(
    node: NodeModel<L>,
    blocks: Seq<BlockModel>,
    fork: u64,
    j: int,
)
    requires
        node.chain.whole(),
        node.chain.sound(),
        fork < node.chain.height,
        branches_off(node.chain, blocks, fork),
        fork + blocks.len() > node.chain.height,
        node.chain.height < FINALITY_DEPTH || node.chain.height <= fork + SYNCED_MAX_REORG,
        !checkpoint_above(node.chain, fork, node.params),
        acceptable_up_to::<L>(
            node.gone_back(fork).chain,
            node.gone_back(fork).ledger,
            blocks,
            node.params,
            j,
        ),
    ensures
        ({
            let (after, forward) = node.batched(blocks);
            let back = node.gone_back(fork);
            let taken = crate::batch::batch::<L>(
                back.chain,
                back.ledger,
                blocks.take(j),
                None,
                node.params,
                j,
            );
            &&& forward == Some(j > 0)
            &&& after == (NodeModel { chain: taken.chain, ledger: taken.ledger, ..node })
            &&& after.chain.height == fork + j
            &&& j > 0 ==> after.chain.tip() == blocks[j - 1]
            &&& j == blocks.len() ==> after.chain.tip() == blocks.last()
        }),
{
    let n = blocks.len() as int;
    assert(node.chain.stored[node.chain.height].index == node.chain.height);
    assert(blocks[0].index == fork + 1);
    lemma_first_refused(node, blocks);
    assert(NodeModel { chain: node.chain, ledger: node.ledger, ..node } == node);
    lemma_top(blocks, n, n - 1);
    assert(blocks[n - 1].index == fork + n);
    lemma_fork_is_found(node.chain, blocks, fork, n);
    crate::block_laws::law_what_may_be_taken_back(node.chain, fork, node.params);
    assert(node.gives_up_above(fork));
    crate::laws::law_revert_to_height_cuts_there(node.chain, fork, node.params);
    crate::node_laws::lemma_gone_back_sound(node, fork);
    let back = node.gone_back(fork);
    lemma_taken_up_to::<L>(back.chain, back.ledger, blocks, node.params, j);
    lemma_nothing_skipped::<L>(back.chain, back.ledger, blocks, fork, node.params, n);
    assert(node.chain.holds_recent());
}

/// A branch that leaves the chain too deep is turned down: below a checkpoint, or more
/// than a few blocks deep once there are final blocks. Nothing changes.
pub proof fn law_a_deep_branch_is_turned_down<L: ChainLedger>(
    node: NodeModel<L>,
    blocks: Seq<BlockModel>,
    fork: u64,
)
    requires
        node.chain.whole(),
        fork < node.chain.height,
        branches_off(node.chain, blocks, fork),
        checkpoint_above(node.chain, fork, node.params) || (node.chain.height >= FINALITY_DEPTH
            && node.chain.height > fork + SYNCED_MAX_REORG),
    ensures
        node.batched(blocks) == (node, Some(false)),
{
    let n = blocks.len() as int;
    assert(node.chain.stored[node.chain.height].index == node.chain.height);
    assert(blocks[0].index == fork + 1);
    lemma_first_refused(node, blocks);
    assert(NodeModel { chain: node.chain, ledger: node.ledger, ..node } == node);
    lemma_fork_is_found(node.chain, blocks, fork, n);
    crate::block_laws::law_what_may_be_taken_back(node.chain, fork, node.params);
    assert(node.chain.holds_recent());
}

/// Blocks that follow one another from the tip on are taken as far as they are
/// acceptable in their turn: the rest of the batch is of no account.
pub proof fn law_a_batch_is_taken_up_to_the_first_bad_block<L: ChainLedger>(
    node: NodeModel<L>,
    blocks: Seq<BlockModel>,
    j: int,
)
    requires
        node.chain.whole(),
        node.chain.sound(),
        node.chain.height + j > 0,
        blocks.len() > 0,
        blocks[0].prev_hash == node.chain.stored[node.chain.height].hash,
        forall|i: int|
            0 <= i < blocks.len() ==> (#[trigger] blocks[i]).index == node.chain.height + 1 + i,
        forall|i: int|
            0 < i < blocks.len() ==> (#[trigger] blocks[i]).prev_hash == blocks[i - 1].hash,
        acceptable_up_to::<L>(node.chain, node.ledger, blocks, node.params, j),
    ensures
        ({
            let (after, forward) = node.batched(blocks);
            let taken = crate::batch::batch::<L>(
                node.chain,
                node.ledger,
                blocks.take(j),
                None,
                node.params,
                j,
            );
            &&& forward == Some(j > 0)
            &&& after == (NodeModel { chain: taken.chain, ledger: taken.ledger, ..node })
            &&& after.chain.height == node.chain.height + j
            &&& j > 0 ==> after.chain.tip() == blocks[j - 1]
        }),
{
    let n = blocks.len() as int;
    lemma_taken_up_to::<L>(node.chain, node.ledger, blocks, node.params, j);
    let b = crate::batch::batch::<L>(node.chain, node.ledger, blocks, None, node.params, n);
    let after = NodeModel { chain: b.chain, ledger: b.ledger, ..node };
    if j < n {
        crate::node_laws::lemma_batch_whole::<L>(
            node.chain,
            node.ledger,
            blocks,
            None,
            node.params,
            n,
        );
        let c = b.chain;
        let tip = c.stored[c.height];
        assert(tip.index == c.height);
        assert(tip.hash == blocks[j].prev_hash) by {
            if j > 0 {
                assert(c.tip() == blocks[j - 1]);
                assert(blocks[j].prev_hash == blocks[j - 1].hash);
            } else {
                assert(c == node.chain);
            }
        }
        assert(blocks[n - 1].index == node.chain.height + n);
        lemma_top(blocks, n, n - 1);
        lemma_tip_is_the_fork(c, blocks, j, n);
        crate::block_laws::law_what_may_be_taken_back(c, c.height, node.params);
        crate::block_laws::law_going_back_takes_block_after_block(c, c.height, node.params);
        assert(c.reverted_to(c.height, node.params) == c);
        assert(after.gone_back(c.height) == after);
        assert(after.gives_up_above(c.height));
        lemma_rest_is_refused::<L>(c, b.ledger, blocks, node.params, j, n);
        assert(c.holds_recent());
    }
}

/// With the first `j` blocks of a batch on the chain and the others not, the fork point
/// is the tip.
proof fn lemma_tip_is_the_fork(c: ChainModel, blocks: Seq<BlockModel>, j: int, n: int)
    requires
        c.has_tip(),
        0 <= j < n <= blocks.len(),
        forall|i: int|
            0 <= i < blocks.len() ==> (#[trigger] blocks[i]).index == c.height + 1 + i - j,
        blocks[j].prev_hash == c.stored[c.height].hash,
    ensures
        c.fork_point_among(blocks, n) == Some(c.height),
    decreases n,
{
    let last = blocks[n - 1];
    assert(last.index == c.height + n - j);
    if n - 1 > j {
        lemma_tip_is_the_fork(c, blocks, j, n - 1);
        assert(c.meets(last) is None);
    } else {
        assert(c.meets(last) == Some(c.height));
        lemma_meets_low(c, blocks, j, j);
    }
}

proof fn lemma_meets_low(c: ChainModel, blocks: Seq<BlockModel>, j: int, n: int)
    requires
        0 <= n <= j <= blocks.len(),
        forall|i: int|
            0 <= i < blocks.len() ==> (#[trigger] blocks[i]).index == c.height + 1 + i - j,
    ensures
        c.fork_point_among(blocks, n) matches Some(h) ==> h <= c.height,
    decreases n,
{
    if n > 0 {
        lemma_meets_low(c, blocks, j, n - 1);
        assert(blocks[n - 1].index == c.height + n - j);
    }
}

/// Of a batch whose first `j` blocks are passed over and whose next one is refused,
/// nothing is taken.
proof fn lemma_rest_is_refused<L: ChainLedger>(
    c: ChainModel,
    ledger: L::Model,
    blocks: Seq<BlockModel>,
    params: ParamsModel,
    j: int,
    n: int,
)
    requires
        0 <= j < blocks.len(),
        j < n <= blocks.len(),
        forall|i: int|
            0 <= i < blocks.len() ==> (#[trigger] blocks[i]).index == c.height + 1 + i - j,
        !crate::apply::ibd_effect::<L>(c, ledger, blocks[j], params).2,
    ensures
        ({
            let b = crate::batch::batch::<L>(c, ledger, blocks, Some(c.height), params, n);
            b.chain == c && b.ledger == ledger && b.applied == 0 && !b.stuck && !b.ok
        }),
{
    lemma_passed_over::<L>(c, ledger, blocks, params, j, j);
    assert(blocks[j].index == c.height + 1);
    crate::batch::lemma_ended_batch_stays::<L>(
        c,
        ledger,
        blocks,
        Some(c.height),
        params,
        j + 1,
        n,
    );
}

proof fn lemma_passed_over<L: ChainLedger>(
    c: ChainModel,
    ledger: L::Model,
    blocks: Seq<BlockModel>,
    params: ParamsModel,
    j: int,
    n: int,
)
    requires
        0 <= n <= j <= blocks.len(),
        forall|i: int|
            0 <= i < blocks.len() ==> (#[trigger] blocks[i]).index == c.height + 1 + i - j,
    ensures
        ({
            let b = crate::batch::batch::<L>(c, ledger, blocks, Some(c.height), params, n);
            b.chain == c && b.ledger == ledger && b.applied == 0 && !b.stuck && b.ok
        }),
    decreases n,
{
    if n > 0 {
        lemma_passed_over::<L>(c, ledger, blocks, params, j, n - 1);
        assert(blocks[n - 1].index == c.height + n - j);
    }
}

/// Whether blocks are those of a chain that end with the one at `fork`.
pub open spec fn ends_at(chain: ChainModel, blocks: Seq<BlockModel>, fork: u64) -> bool {
    &&& 0 < blocks.len() <= fork
    &&& forall|i: int|
        0 <= i < blocks.len() ==> (#[trigger] blocks[i]).index == fork + 1 - blocks.len() + i
            && blocks[i].hash == chain.stored[blocks[i].index].hash
}

proof fn lemma_shared_top(shared: Seq<BlockModel>, rest: Seq<BlockModel>, fork: u64, k: int)
    requires
        1 <= k <= rest.len(),
        forall|i: int| 0 <= i < shared.len() ==> (#[trigger] shared[i]).index <= fork,
        forall|i: int| 0 <= i < rest.len() ==> (#[trigger] rest[i]).index == fork + 1 + i,
    ensures
        crate::batch::top_index(shared + rest, shared.len() + k) == fork + k,
        crate::batch::top_index(rest, k) == fork + k,
    decreases k,
{
    let all = shared + rest;
    let m = shared.len() as int;
    assert(all[m + k - 1] == rest[k - 1]);
    assert(rest[k - 1].index == fork + 1 + (k - 1));
    if k > 1 {
        lemma_shared_top(shared, rest, fork, k - 1);
    } else {
        lemma_shared_top_low(shared, rest, fork, m);
        assert(crate::batch::top_index(rest, 0) == 0);
    }
}

proof fn lemma_shared_top_low(shared: Seq<BlockModel>, rest: Seq<BlockModel>, fork: u64, n: int)
    requires
        0 <= n <= shared.len(),
        forall|i: int| 0 <= i < shared.len() ==> (#[trigger] shared[i]).index <= fork,
    ensures
        crate::batch::top_index(shared + rest, n) <= fork,
    decreases n,
{
    if n > 0 {
        lemma_shared_top_low(shared, rest, fork, n - 1);
        assert((shared + rest)[n - 1] == shared[n - 1]);
    }
}

proof fn lemma_shared_fork_low(
    chain: ChainModel,
    shared: Seq<BlockModel>,
    rest: Seq<BlockModel>,
    fork: u64,
    n: int,
)
    requires
        0 <= n <= shared.len(),
        fork <= chain.height,
        ends_at(chain, shared, fork),
        chain.stored.dom().contains(fork),
    ensures
        chain.fork_point_among(shared + rest, n) matches Some(h) ==> h <= fork,
        n == shared.len() ==> chain.fork_point_among(shared + rest, n) == Some(fork),
    decreases n,
{
    if n > 0 {
        lemma_shared_fork_low(chain, shared, rest, fork, n - 1);
        assert((shared + rest)[n - 1] == shared[n - 1]);
        assert(shared[n - 1].index == fork + 1 - shared.len() + (n - 1));
    }
}

proof fn lemma_shared_fork(
    chain: ChainModel,
    shared: Seq<BlockModel>,
    rest: Seq<BlockModel>,
    fork: u64,
    k: int,
)
    requires
        0 <= k <= rest.len(),
        fork <= chain.height,
        ends_at(chain, shared, fork),
        chain.stored.dom().contains(fork),
        forall|i: int|
            0 <= i < rest.len() ==> (chain.meets(#[trigger] rest[i]) matches Some(h) ==> h <= fork),
    ensures
        chain.fork_point_among(shared + rest, shared.len() + k) == Some(fork),
    decreases k,
{
    if k > 0 {
        lemma_shared_fork(chain, shared, rest, fork, k - 1);
        assert((shared + rest)[shared.len() + k - 1] == rest[k - 1]);
    } else {
        lemma_shared_fork_low(chain, shared, rest, fork, shared.len() as int);
    }
}

proof fn lemma_shared_batch<L: ChainLedger>(
    chain: ChainModel,
    ledger: L::Model,
    shared: Seq<BlockModel>,
    rest: Seq<BlockModel>,
    fork: u64,
    params: ParamsModel,
    n: int,
)
    requires
        0 <= n <= shared.len() + rest.len(),
        forall|i: int| 0 <= i < shared.len() ==> (#[trigger] shared[i]).index <= fork,
    ensures
        crate::batch::batch::<L>(chain, ledger, shared + rest, Some(fork), params, n)
            == crate::batch::batch::<L>(
            chain,
            ledger,
            rest,
            Some(fork),
            params,
            n - shared.len(),
        ),
    decreases n,
{
    if n > 0 {
        lemma_shared_batch::<L>(chain, ledger, shared, rest, fork, params, n - 1);
        if n <= shared.len() {
            assert((shared + rest)[n - 1] == shared[n - 1]);
        } else {
            assert((shared + rest)[n - 1] == rest[n - 1 - shared.len()]);
        }
    }
}

proof fn lemma_branch_meets(chain: ChainModel, blocks: Seq<BlockModel>, fork: u64)
    requires
        chain.linked(),
        fork < chain.height,
        branches_off(chain, blocks, fork),
    ensures
        forall|i: int|
            0 <= i < blocks.len() ==> (chain.meets(#[trigger] blocks[i]) matches Some(h) ==> h
                <= fork),
{
    assert forall|i: int| 0 <= i < blocks.len() implies (chain.meets(
        #[trigger] blocks[i],
    ) matches Some(h) ==> h <= fork) by {
        let block = blocks[i];
        if block.index <= chain.height {
            assert(chain.stored.dom().contains(block.index));
        }
        if i > 0 {
            let prior = blocks[i - 1];
            assert(block.prev_hash == prior.hash);
            if prior.index <= chain.height {
                assert(chain.stored.dom().contains(prior.index));
            }
        }
    }
}

/// Blocks that the node has already are passed over: a branch that comes behind some of
/// them leads to the same as the branch alone.
pub proof fn law_shared_blocks_are_passed_over<L: ChainLedger>(
    node: NodeModel<L>,
    shared: Seq<BlockModel>,
    branch: Seq<BlockModel>,
    fork: u64,
)
    requires
        node.chain.whole(),
        fork < node.chain.height,
        ends_at(node.chain, shared, fork),
        branches_off(node.chain, branch, fork),
    ensures
        node.batched(shared + branch) == node.batched(branch),
{
    let all = shared + branch;
    let m = shared.len() as int;
    let n = branch.len() as int;
    assert(node.chain.stored[node.chain.height].index == node.chain.height);
    assert(all[0] == shared[0]);
    assert(shared[0].index <= fork);
    assert(branch[0].index == fork + 1);
    lemma_first_refused(node, all);
    lemma_first_refused(node, branch);
    assert(NodeModel { chain: node.chain, ledger: node.ledger, ..node } == node);
    assert(forall|i: int| 0 <= i < m ==> (#[trigger] shared[i]).index <= fork);
    lemma_shared_top(shared, branch, fork, n);
    assert(node.chain.stored.dom().contains(fork));
    lemma_branch_meets(node.chain, branch, fork);
    lemma_shared_fork(node.chain, shared, branch, fork, n);
    lemma_fork_is_found(node.chain, branch, fork, n);
    let back = node.gone_back(fork);
    lemma_shared_batch::<L>(
        back.chain,
        back.ledger,
        shared,
        branch,
        fork,
        node.params,
        m + n,
    );
}

/// Blocks that follow the tip are taken as far as they are acceptable in their turn,
/// also where they come behind blocks that the node has already.
pub proof fn law_an_overlapping_batch_is_taken<L: ChainLedger>(
    node: NodeModel<L>,
    shared: Seq<BlockModel>,
    next: Seq<BlockModel>,
    j: int,
)
    requires
        node.chain.whole(),
        node.chain.sound(),
        ends_at(node.chain, shared, node.chain.height),
        next.len() > 0,
        forall|i: int|
            0 <= i < next.len() ==> (#[trigger] next[i]).index == node.chain.height + 1 + i,
        acceptable_up_to::<L>(node.chain, node.ledger, next, node.params, j),
    ensures
        ({
            let (after, forward) = node.batched(shared + next);
            let taken = crate::batch::batch::<L>(
                node.chain,
                node.ledger,
                next.take(j),
                None,
                node.params,
                j,
            );
            &&& forward == Some(j > 0)
            &&& after == (NodeModel { chain: taken.chain, ledger: taken.ledger, ..node })
            &&& after.chain.height == node.chain.height + j
            &&& j > 0 ==> after.chain.tip() == next[j - 1]
        }),
{
    let all = shared + next;
    let m = shared.len() as int;
    let n = next.len() as int;
    let c = node.chain;
    assert(c.stored[c.height].index == c.height);
    assert(all[0] == shared[0]);
    assert(shared[0].index <= c.height);
    lemma_first_refused(node, all);
    assert(NodeModel { chain: c, ledger: node.ledger, ..node } == node);
    assert(forall|i: int| 0 <= i < m ==> (#[trigger] shared[i]).index <= c.height);
    lemma_shared_top(shared, next, c.height, n);
    assert(forall|i: int|
        0 <= i < n ==> (c.meets(#[trigger] next[i]) matches Some(h) ==> h <= c.height));
    lemma_shared_fork(c, shared, next, c.height, n);
    crate::block_laws::law_what_may_be_taken_back(c, c.height, node.params);
    crate::block_laws::law_going_back_takes_block_after_block(c, c.height, node.params);
    assert(c.reverted_to(c.height, node.params) == c);
    assert(node.gone_back(c.height) == node);
    assert(node.gives_up_above(c.height));
    assert(c.holds_recent());
    lemma_shared_batch::<L>(c, node.ledger, shared, next, c.height, node.params, m + n);
    lemma_nothing_skipped::<L>(c, node.ledger, next, c.height, node.params, n);
    lemma_taken_up_to::<L>(c, node.ledger, next, node.params, j);
}

/// A batch comes to a halt, without an answer, at a block that would be taken but whose
/// difficulty is worked out from a record that is not in memory. What came before it
/// stays taken.
pub proof fn law_a_batch_halts_at_a_missing_record<L: ChainLedger>(
    node: NodeModel<L>,
    blocks: Seq<BlockModel>,
    j: int,
)
    requires
        node.chain.sound(),
        0 <= j < blocks.len(),
        crate::node_laws::acceptable::<L>(
            node.chain,
            node.ledger,
            blocks.take(j),
            node.params,
        ),
        ({
            let before = crate::batch::batch::<L>(
                node.chain,
                node.ledger,
                blocks.take(j),
                None,
                node.params,
                j,
            );
            let block = blocks[j];
            &&& crate::apply::ibd_effect::<L>(before.chain, before.ledger, block, node.params).2
            &&& block.difficulty_target == 0
            &&& block.index as int % DAA_WINDOW as int == 0
            &&& block.index >= DAA_WINDOW
            &&& forall|i: int|
                0 <= i < node.params.checkpoints.len() ==> (
                #[trigger] node.params.checkpoints[i]).height < block.index
            &&& !before.chain.loaded.contains((block.index - DAA_WINDOW) as u64)
        }),
    ensures
        ({
            let before = crate::batch::batch::<L>(
                node.chain,
                node.ledger,
                blocks.take(j),
                None,
                node.params,
                j,
            );
            node.batched(blocks) == (
                NodeModel { chain: before.chain, ledger: before.ledger, ..node },
                None::<bool>,
            )
        }),
{
    let some = blocks.take(j);
    crate::node_laws::lemma_whole_batch::<L>(node.chain, node.ledger, some, node.params, j);
    lemma_batch_prefix::<L>(node.chain, node.ledger, some, blocks, node.params, j);
    let next = crate::batch::batch::<L>(
        node.chain,
        node.ledger,
        blocks,
        None,
        node.params,
        j + 1,
    );
    assert(next.stuck);
    crate::batch::lemma_ended_batch_stays::<L>(
        node.chain,
        node.ledger,
        blocks,
        None,
        node.params,
        j + 1,
        blocks.len() as int,
    );
}

/// A node goes back block after block: each time the tip leaves the chain, and the
/// ledger gets back what that block did. A node that is there already stays as it is.
pub proof fn law_a_node_goes_back_block_after_block<L: ChainLedger>(
    node: NodeModel<L>,
    target: u64,
)
    ensures
        0 < node.chain.height <= target ==> node.gone_back(target) == node,
        node.chain.height > target ==> node.gone_back(target) == (NodeModel {
            chain: node.chain.reverted(node.params),
            ledger: crate::apply::block_undone::<L>(
                node.ledger,
                node.chain.stored[node.chain.height],
            ),
            ..node
        }).gone_back(target),
{
}

/// Taking acceptable blocks is taking one after the other as a historical block.
pub proof fn law_a_batch_goes_block_after_block<L: ChainLedger>(
    chain: ChainModel,
    ledger: L::Model,
    blocks: Seq<BlockModel>,
    params: ParamsModel,
)
    requires
        chain.sound(),
        crate::node_laws::acceptable::<L>(chain, ledger, blocks, params),
    ensures
        ({
            let n = blocks.len() as int;
            let all = crate::batch::batch::<L>(chain, ledger, blocks, None, params, n);
            let less = crate::batch::batch::<L>(
                chain,
                ledger,
                blocks.drop_last(),
                None,
                params,
                n - 1,
            );
            &&& n == 0 ==> all.chain == chain && all.ledger == ledger
            &&& n > 0 ==> (all.chain, all.ledger, true) == crate::apply::ibd_effect::<L>(
                less.chain,
                less.ledger,
                blocks.last(),
                params,
            )
        }),
{
    let n = blocks.len() as int;
    if n > 0 {
        crate::node_laws::lemma_whole_batch::<L>(chain, ledger, blocks, params, n - 1);
        lemma_batch_prefix::<L>(chain, ledger, blocks, blocks.drop_last(), params, n - 1);
    }
}

/// A longer branch that the peer which drives the download delivers, each block of which
/// is acceptable in its turn, ends up on the chain.
#[verifier::spinoff_prover]
#[verifier::rlimit(40)]
pub proof fn law_a_delivered_branch_is_taken<L: ChainLedger>(
    node: NodeModel<L>,
    session: PeerSession,
    blocks: Seq<BlockModel>,
    fork: u64,
    now: u64,
)
    requires
        crate::message_laws::belongs(node.slot, session),
        node.chain.whole(),
        node.chain.sound(),
        fork < node.chain.height,
        branches_off(node.chain, blocks, fork),
        fork + blocks.len() > node.chain.height,
        node.chain.height < FINALITY_DEPTH || node.chain.height <= fork + SYNCED_MAX_REORG,
        !checkpoint_above(node.chain, fork, node.params),
        crate::node_laws::acceptable::<L>(
            node.gone_back(fork).chain,
            node.gone_back(fork).ledger,
            blocks,
            node.params,
        ),
    ensures
        node.delivered(session, blocks, now).0.chain.height == fork + blocks.len(),
        node.delivered(session, blocks, now).0.chain.tip() == blocks.last(),
        node.delivered(session, blocks, now).1 is Some,
{
    assert(blocks.take(blocks.len() as int) =~= blocks);
    law_a_longer_branch_is_taken(node, blocks, fork, blocks.len() as int);
}

/// After a batch of the peer that drives the download, each block of which may be
/// appended in turn, the chain has grown by it, its last block is remembered as passed
/// on, and the figures are those of the chain. Then the node asks for the blocks after
/// its new tip, no more than fit in a chunk and that the peer has; or for the peer's
/// height if that is not known; or the download is over: the node is synced, nobody
/// drives it, and blocks take the base time again.
pub proof fn law_what_a_delivered_batch_leads_to<L: ChainLedger>(
    node: NodeModel<L>,
    session: PeerSession,
    blocks: Seq<BlockModel>,
    now: u64,
)
    requires
        crate::message_laws::belongs(node.slot, session),
        node.chain.sound(),
        blocks.len() > 0,
        crate::node_laws::acceptable::<L>(node.chain, node.ledger, blocks, node.params),
    ensures
        ({
            let (after, step) = node.delivered(session, blocks, now);
            let height = node.chain.height + blocks.len();
            &&& after == (NodeModel {
                chain: after.chain,
                ledger: crate::batch::batch::<L>(
                    node.chain,
                    node.ledger,
                    blocks,
                    None,
                    node.params,
                    blocks.len() as int,
                ).ledger,
                slot: after.slot,
                sync_ready: after.sync_ready,
                cached: after.cached,
                relay: after.relay,
                ..node
            })
            &&& after.chain.height == height
            &&& after.chain.tip() == blocks.last()
            &&& after.cached.height == height
            &&& after.cached.best_hash == crate::hash::hex_text(blocks.last().hash@)
            &&& after.cached.difficulty == after.chain.difficulty
            &&& after.cached.accounts == L::accounts(after.ledger) as u64
            &&& after.cached.supply == L::supply(after.ledger)
            &&& after.relay == (RelayLock {
                height: after.chain.tip().index,
                hash: blocks.last().hash,
                at: now,
            })
            &&& match session.peer_height {
                None => {
                    &&& step == Some(SyncStep::AskHeight)
                    &&& after.slot == Some((session.addr, now))
                    &&& after.sync_ready == node.sync_ready
                },
                Some(last) => if height < last {
                    &&& step matches Some(SyncStep::Request { from, to }) && from == height + 1
                        && to == if height + node.chunk < last {
                        height + node.chunk
                    } else {
                        last as int
                    }
                    &&& after.slot == Some((session.addr, now))
                    &&& after.sync_ready == node.sync_ready
                } else {
                    &&& step == Some(SyncStep::Idle)
                    &&& after.slot is None
                    &&& after.sync_ready
                    &&& after.chain.target_block_ms == BASE_TARGET_BLOCK_MS
                },
            }
        }),
{
    crate::node_laws::lemma_whole_batch::<L>(
        node.chain,
        node.ledger,
        blocks,
        node.params,
        blocks.len() as int,
    );
}

/// A batch that does not follow the tip and ends no higher than it changes nothing but
/// that the peer counts as active; the node asks for nothing more.
pub proof fn law_a_shorter_branch_changes_nothing<L: ChainLedger>(
    node: NodeModel<L>,
    session: PeerSession,
    blocks: Seq<BlockModel>,
    now: u64,
)
    requires
        node.ready(),
        crate::message_laws::belongs(node.slot, session),
        blocks.len() > 0,
        !(blocks[0].index == node.chain.stored[node.chain.height].index + 1
            && blocks[0].prev_hash == node.chain.stored[node.chain.height].hash),
        forall|i: int| 0 <= i < blocks.len() ==> (#[trigger] blocks[i]).index <= node.chain.height,
    ensures
        ({
            let (after, step) = node.delivered(session, blocks, now);
            &&& after.chain == node.chain
            &&& after.ledger == node.ledger
            &&& after.slot == Some((session.addr, now))
            &&& after.sync_ready == node.sync_ready
            &&& after.relay == node.relay
            &&& step == Some(SyncStep::Idle)
        }),
{
    lemma_first_refused(node, blocks);
    assert(NodeModel { chain: node.chain, ledger: node.ledger, ..node } == node);
    crate::node_laws::law_only_a_longer_branch_counts(node, blocks);
}

/// A batch that shares no block with a young chain and is well ahead of it makes the
/// node start over from genesis; one that is not well ahead changes nothing.
pub proof fn law_a_young_chain_starts_over<L: ChainLedger>(
    node: NodeModel<L>,
    blocks: Seq<BlockModel>,
)
    requires
        node.chain.whole(),
        node.chain.sound(),
        node.chain.height <= FINALITY_DEPTH,
        !checkpoint_above(node.chain, 0, node.params),
        blocks.len() > 0,
        forall|i: int|
            0 <= i < blocks.len() && (#[trigger] blocks[i]).index <= node.chain.height
                ==> blocks[i].hash != node.chain.stored[blocks[i].index].hash,
        forall|i: int|
            0 <= i < blocks.len() && 1 <= (#[trigger] blocks[i]).index <= node.chain.height + 1
                ==> blocks[i].prev_hash != node.chain.stored[(blocks[i].index - 1) as u64].hash,
    ensures
        (exists|i: int|
            0 <= i < blocks.len() && (#[trigger] blocks[i]).index > node.chain.height + 10) ==> {
            let (after, forward) = node.batched(blocks);
            &&& forward == Some(true)
            &&& after.chain.height == 0
            &&& after.chain.tip() == node.chain.stored[0]
            &&& after.chain.difficulty == node.params.testnet_target
        },
        (forall|i: int|
            0 <= i < blocks.len() ==> (#[trigger] blocks[i]).index <= node.chain.height + 10)
            ==> node.batched(blocks) == (node, Some(false)),
{
    let n = blocks.len() as int;
    assert(node.chain.stored[node.chain.height].index == node.chain.height);
    let first = blocks[0];
    lemma_first_refused(node, blocks);
    assert(NodeModel { chain: node.chain, ledger: node.ledger, ..node } == node);
    lemma_no_fork(node.chain, blocks, n);
    assert(node.chain.holds_recent());
    crate::block_laws::law_what_may_be_taken_back(node.chain, 0, node.params);
    crate::laws::law_revert_to_height_cuts_there(node.chain, 0, node.params);
    crate::laws::law_revert_to_genesis_resets_difficulty(node.chain, node.params);
    let back = node.gone_back(0);
    assert(back.chain.block(0) == node.chain.block(0));
    if exists|i: int| 0 <= i < n && (#[trigger] blocks[i]).index > node.chain.height + 10 {
        let i = choose|i: int|
            0 <= i < n && (#[trigger] blocks[i]).index > node.chain.height + 10;
        lemma_top(blocks, n, i);
    }
    if forall|i: int| 0 <= i < n ==> (#[trigger] blocks[i]).index <= node.chain.height + 10 {
        crate::node_laws::lemma_top_index(blocks, (node.chain.height + 10) as u64, n);
    }
}

proof fn lemma_no_fork(chain: ChainModel, blocks: Seq<BlockModel>, n: int)
    requires
        0 <= n <= blocks.len(),
        forall|i: int|
            0 <= i < blocks.len() && (#[trigger] blocks[i]).index <= chain.height
                ==> blocks[i].hash != chain.stored[blocks[i].index].hash,
        forall|i: int|
            0 <= i < blocks.len() && 1 <= (#[trigger] blocks[i]).index <= chain.height + 1
                ==> blocks[i].prev_hash != chain.stored[(blocks[i].index - 1) as u64].hash,
    ensures
        chain.fork_point_among(blocks, n) is None,
    decreases n,
{
    if n > 0 {
        lemma_no_fork(chain, blocks, n - 1);
        assert(chain.meets(blocks[n - 1]) is None);
    }
}

/// A peer that has no more blocks to send ends the download, if it drives it or nobody
/// does: blocks take the base time again, and the node counts as synced if it is close
/// to the peer's height or does not know it. From anybody else it is ignored.
pub proof fn law_what_an_empty_batch_leads_to<L: ChainLedger>(
    node: NodeModel<L>,
    session: PeerSession,
    now: u64,
)
    ensures
        ({
            let (after, step) = node.delivered(session, Seq::empty(), now);
            let heard = node.slot is None || crate::message_laws::belongs(node.slot, session);
            let close = match session.peer_height {
                Some(last) => last == 0 || last <= node.chain.height + 10,
                None => true,
            };
            &&& !heard ==> after == node && step == Some(SyncStep::Ignore)
            &&& heard ==> {
                &&& step == Some(SyncStep::Idle)
                &&& after.slot is None
                &&& after.sync_ready == (node.sync_ready || close)
                &&& after.chain.target_block_ms == BASE_TARGET_BLOCK_MS
                &&& after.chain.height == node.chain.height
                &&& after.chain.stored == node.chain.stored
                &&& after.chain.difficulty == node.chain.difficulty
                &&& after.chain.chainwork == node.chain.chainwork
                &&& after.ledger == node.ledger
                &&& after.relay == node.relay
            }
        }),
{
}

/// A batch from a peer that neither has the download slot nor gets it is not looked
/// at; one from a peer that gets it is dealt with as if it had had it before.
pub proof fn law_whose_batches_are_looked_at<L: ChainLedger>(
    node: NodeModel<L>,
    session: PeerSession,
    blocks: Seq<BlockModel>,
    now: u64,
)
    requires
        blocks.len() > 0,
    ensures
        !crate::message_laws::belongs(node.slot, session) && !(node.slot is None
            && crate::message_laws::entitled(node, session, now)) ==> node.delivered(
            session,
            blocks,
            now,
        ) == (node, Some(SyncStep::Ignore)),
        node.slot is None && crate::message_laws::entitled(node, session, now) ==> node.delivered(
            session,
            blocks,
            now,
        ) == (NodeModel { slot: Some((session.addr, now)), ..node }).delivered(
            session,
            blocks,
            now,
        ),
{
    let holding = NodeModel { slot: Some((session.addr, now)), ..node };
    if node.slot is None && crate::message_laws::entitled(node, session, now) {
        lemma_batched_ignores_the_slot(node, Some((session.addr, now)), blocks);
    }
}

proof fn lemma_batched_ignores_the_slot<L: ChainLedger>(
    node: NodeModel<L>,
    slot: crate::sync::Slot,
    blocks: Seq<BlockModel>,
)
    ensures
        (NodeModel { slot, ..node }).batched(blocks) == (
            NodeModel { slot, ..node.batched(blocks).0 },
            node.batched(blocks).1,
        ),
{
    let other = NodeModel { slot, ..node };
    let b = crate::batch::batch::<L>(
        node.chain,
        node.ledger,
        blocks,
        None,
        node.params,
        blocks.len() as int,
    );
    let after = NodeModel { chain: b.chain, ledger: b.ledger, ..node };
    let mine = NodeModel { chain: b.chain, ledger: b.ledger, ..other };
    assert(mine == NodeModel { slot, ..after });
    match b.chain.fork_point(blocks) {
        Some(fork) => {
            assert(mine.gone_back(fork) == NodeModel { slot, ..after.gone_back(fork) });
        },
        None => {
            assert(mine.gone_back(0) == NodeModel { slot, ..after.gone_back(0) });
        },
    }
}

} // verus!
