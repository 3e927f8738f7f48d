//! What the difficulty rules promise.

use vstd::prelude::*;

use crate::block::BlockModel;
use crate::model::ChainModel;
use crate::params::{
    ParamsModel, ABC_STEP_MS, ABC_WINDOW, DAA_WINDOW, LWMA_WINDOW, MAX_TARGET,
    MAX_TARGET_BLOCK_MS, MIN_TARGET, MIN_TARGET_BLOCK_MS,
};

verus! {

impl ChainModel {
    /// Number of blocks in the averaging window.
    pub open spec fn window(self) -> int {
        crate::model::min_int(LWMA_WINDOW as int, self.height as int)
    }

    /// Whether the averaging window is there to be read, and its target time is
    /// not zero.
    pub open spec fn window_ready(self) -> bool {
        &&& self.height >= 2
        &&& self.target_block_ms > 0
        &&& crate::model::present(
            self.stored,
            self.height - self.window(),
            self.height as int,
        )
    }

    /// Average target over the window.
    pub open spec fn average_target(self) -> int {
        crate::model::target_sum(
            self.stored,
            self.height - self.window(),
            self.difficulty,
            self.window(),
        ) / self.window()
    }
}

proof fn lemma_spent_bounds(c: ChainModel, n: int)
    requires
        0 <= n <= c.window(),
        c.target_block_ms > 0,
    ensures
        n > 0 ==> crate::model::weighted_time(
            c.stored,
            c.height - c.window(),
            c.target_block_ms as int,
            n,
        ) > 0,
        0 <= crate::model::weighted_time(
            c.stored,
            c.height - c.window(),
            c.target_block_ms as int,
            n,
        ) <= 6 * (c.target_block_ms * n * (n + 1) / 2),
        (c.target_block_ms * n * (n + 1)) % 2 == 0,
    decreases n,
{
    let t = c.target_block_ms as int;
    lemma_even(t, n);
    if n > 0 {
        lemma_spent_bounds(c, n - 1);
        let solve = crate::model::solve_ms(c.stored, c.height - c.window() + n, t);
        assert(1 <= solve <= 6 * t);
        assert(n <= n * solve <= n * (6 * t)) by (nonlinear_arith)
            requires
                0 < n,
                1 <= solve <= 6 * t,
        ;
        assert(t * (n - 1) * n + 2 * (n * t) == t * n * (n + 1)) by (nonlinear_arith);
        assert(n * (6 * t) == 6 * (n * t)) by (nonlinear_arith);
    }
}

proof fn lemma_even(t: int, n: int)
    requires
        0 <= n,
    ensures
        (t * n * (n + 1)) % 2 == 0,
    decreases n,
{
    if n > 0 {
        lemma_even(t, n - 1);
        assert(t * (n - 1) * n + 2 * (n * t) == t * n * (n + 1)) by (nonlinear_arith);
        assert((t * (n - 1) * ((n - 1) + 1)) == t * (n - 1) * n);
    } else {
        assert(t * 0 * 1 == 0) by (nonlinear_arith);
    }
}

/// The moving average never leaves the allowed targets, and whatever the
/// timestamps say it is at most six times the average target.
pub proof fn law_lwma_is_bounded(c: ChainModel, params: ParamsModel)
    requires
        c.window_ready(),
    ensures
        MIN_TARGET <= c.lwma(params) <= MAX_TARGET,
        c.lwma(params) <= crate::model::max_int(MIN_TARGET as int, 6 * c.average_target()),
{
    let n = c.window();
    let t = c.target_block_ms as int;
    lemma_spent_bounds(c, n);
    let spent = crate::model::weighted_time(c.stored, c.height - n, t, n);
    let ideal = t * n * (n + 1) / 2;
    let avg = c.average_target();
    lemma_sum_not_negative(c, n);
    assert(avg >= 0) by (nonlinear_arith)
        requires
            avg == crate::model::target_sum(c.stored, c.height - n, c.difficulty, n) / n,
            crate::model::target_sum(c.stored, c.height - n, c.difficulty, n) >= 0,
            n > 0,
    ;
    assert(ideal > 0);
    assert(avg * spent / ideal <= 6 * avg) by (nonlinear_arith)
        requires
            0 <= avg,
            0 <= spent <= 6 * ideal,
            ideal > 0,
    ;
}

proof fn lemma_sum_not_negative(c: ChainModel, n: int)
    ensures
        crate::model::target_sum(c.stored, c.height - c.window(), c.difficulty, n) >= 0,
    decreases n,
{
    if n > 0 {
        lemma_sum_not_negative(c, n - 1);
    }
}

proof fn lemma_steady(c: ChainModel, target: u64, n: int)
    requires
        0 <= n <= c.window(),
        c.target_block_ms > 0,
        forall|i: int|
            c.height - c.window() < i <= c.height ==> #[trigger] crate::model::gap_ms(c.stored, i)
                == c.target_block_ms,
        forall|i: int|
            c.height - c.window() < i <= c.height ==> crate::model::target_of(
                #[trigger] c.stored[i as u64],
                c.difficulty,
            ) == target,
    ensures
        crate::model::weighted_time(
            c.stored,
            c.height - c.window(),
            c.target_block_ms as int,
            n,
        ) == c.target_block_ms * n * (n + 1) / 2,
        crate::model::target_sum(c.stored, c.height - c.window(), c.difficulty, n) == n * target,
        (c.target_block_ms * n * (n + 1)) % 2 == 0,
    decreases n,
{
    let t = c.target_block_ms as int;
    lemma_even(t, n);
    if n > 0 {
        lemma_steady(c, target, n - 1);
        let i = c.height - c.window() + n;
        assert(crate::model::gap_ms(c.stored, i) == t);
        assert(crate::model::target_of(c.stored[i as u64], c.difficulty) == target);
        assert(t * (n - 1) * n + 2 * (n * t) == t * n * (n + 1)) by (nonlinear_arith);
        assert((n - 1) * target + target == n * target) by (nonlinear_arith);
    } else {
        assert(t * 0 * 1 == 0) by (nonlinear_arith);
    }
}

/// Blocks that come exactly at the target time, all mined under one target, keep
/// that target.
pub proof fn law_lwma_keeps_a_steady_target(c: ChainModel, params: ParamsModel, target: u64)
    requires
        c.window_ready(),
        MIN_TARGET <= target <= MAX_TARGET,
        forall|i: int|
            c.height - c.window() < i <= c.height ==> #[trigger] crate::model::gap_ms(c.stored, i)
                == c.target_block_ms,
        forall|i: int|
            c.height - c.window() < i <= c.height ==> crate::model::target_of(
                #[trigger] c.stored[i as u64],
                c.difficulty,
            ) == target,
    ensures
        c.lwma(params) == target,
{
    let n = c.window();
    let t = c.target_block_ms as int;
    lemma_steady(c, target, n);
    lemma_spent_bounds(c, n);
    let ideal = t * n * (n + 1) / 2;
    assert((n * target) / n == target) by (nonlinear_arith)
        requires
            n > 0,
    ;
    assert((target * ideal) / ideal == target) by (nonlinear_arith)
        requires
            ideal > 0,
    ;
}

/// One window changes the target at most fourfold either way, apart from the
/// allowed targets themselves.
pub proof fn law_next_difficulty_changes_at_most_fourfold(c: ChainModel, params: ParamsModel)
    requires
        c.height >= DAA_WINDOW,
        c.stored.dom().contains(c.height),
        c.stored.dom().contains((c.height - DAA_WINDOW) as u64),
        c.target_block_ms > 0,
    ensures
        c.next_difficulty(params) >= MIN_TARGET,
        c.next_difficulty(params) >= crate::model::min_int(
            c.difficulty as int / 4,
            MAX_TARGET as int,
        ),
        c.next_difficulty(params) <= crate::model::max_int(c.difficulty * 4, MIN_TARGET as int),
{
}

/// Blocks that came too fast make mining harder, blocks that came too slowly make
/// it easier.
pub proof fn law_next_difficulty_follows_the_pace(c: ChainModel, params: ParamsModel)
    requires
        c.height >= DAA_WINDOW,
        c.stored.dom().contains(c.height),
        c.stored.dom().contains((c.height - DAA_WINDOW) as u64),
        c.target_block_ms > 0,
        MIN_TARGET <= c.difficulty <= MAX_TARGET,
    ensures
        crate::model::monus(
            c.stored[c.height].timestamp as int,
            c.stored[(c.height - DAA_WINDOW) as u64].timestamp as int,
        ) <= c.target_block_ms * DAA_WINDOW ==> c.next_difficulty(params) <= c.difficulty,
        crate::model::monus(
            c.stored[c.height].timestamp as int,
            c.stored[(c.height - DAA_WINDOW) as u64].timestamp as int,
        ) >= c.target_block_ms * DAA_WINDOW ==> c.next_difficulty(params) >= c.difficulty,
{
    let actual = crate::model::monus(
        c.stored[c.height].timestamp as int,
        c.stored[(c.height - DAA_WINDOW) as u64].timestamp as int,
    );
    let expected = c.target_block_ms * DAA_WINDOW;
    let d = c.difficulty as int;
    assert(expected > 0);
    if actual <= expected {
        assert(d * actual / expected <= d) by (nonlinear_arith)
            requires
                0 <= actual <= expected,
                0 <= d,
                expected > 0,
        ;
    }
    if actual >= expected {
        assert(d * actual / expected >= d) by (nonlinear_arith)
            requires
                actual >= expected > 0,
                0 <= d,
        ;
    }
}

/// The target block time stays within its bounds and moves by one step at most.
pub proof fn law_cadence_moves_one_step(c: ChainModel)
    requires
        c.height >= ABC_WINDOW,
    ensures
        MIN_TARGET_BLOCK_MS <= c.cadence() <= MAX_TARGET_BLOCK_MS,
        MIN_TARGET_BLOCK_MS <= c.target_block_ms <= MAX_TARGET_BLOCK_MS ==> {
            &&& c.cadence() <= c.target_block_ms + ABC_STEP_MS
            &&& c.cadence() + ABC_STEP_MS >= c.target_block_ms
        },
{
}

/// Whether two chains of the same height agree on the blocks of the full averaging
/// window and on the target block time, and those blocks record their targets.
pub open spec fn same_window(a: ChainModel, b: ChainModel) -> bool {
    &&& a.height == b.height
    &&& a.height >= LWMA_WINDOW
    &&& a.target_block_ms == b.target_block_ms
    &&& a.window_ready()
    &&& b.window_ready()
    &&& forall|i: u64|
        a.height - LWMA_WINDOW <= i <= a.height ==> #[trigger] a.stored[i] == b.stored[i]
    &&& forall|i: u64|
        a.height - LWMA_WINDOW < i <= a.height ==> (#[trigger] a.stored[i]).difficulty_target != 0
}

/// The moving average is determined by the window: chains that agree on it agree on
/// the average, whatever their difficulties are.
pub proof fn law_lwma_is_determined_by_the_window(
    a: ChainModel,
    b: ChainModel,
    params: ParamsModel,
)
    requires
        same_window(a, b),
    ensures
        a.lwma(params) == b.lwma(params),
{
    let n = LWMA_WINDOW as int;
    let t = a.target_block_ms as int;
    lemma_windows_agree(a, b, n);
    lemma_spent_bounds(a, n);
    assert(t * n * (n + 1) / 2 > 0) by (nonlinear_arith)
        requires
            t > 0,
            n == 60,
    ;
}

proof fn lemma_windows_agree(a: ChainModel, b: ChainModel, n: int)
    requires
        same_window(a, b),
        0 <= n <= LWMA_WINDOW,
    ensures
        crate::model::weighted_time(
            a.stored,
            a.height - LWMA_WINDOW,
            a.target_block_ms as int,
            n,
        ) == crate::model::weighted_time(
            b.stored,
            a.height - LWMA_WINDOW,
            a.target_block_ms as int,
            n,
        ),
        crate::model::target_sum(a.stored, a.height - LWMA_WINDOW, a.difficulty, n)
            == crate::model::target_sum(b.stored, a.height - LWMA_WINDOW, b.difficulty, n),
    decreases n,
{
    if n > 0 {
        lemma_windows_agree(a, b, n - 1);
        let i = (a.height - LWMA_WINDOW + n) as u64;
        assert(a.stored[i] == b.stored[i]);
        assert(a.stored[i].difficulty_target != 0);
        assert(a.stored[(i - 1) as u64] == b.stored[(i - 1) as u64]);
    }
}

/// Working the difficulty out anew gives what mining the last block live gave on
/// any chain that holds the same window of blocks, and leaves height, work and
/// blocks as they are. The target block time must be the one that the block was
/// mined under.
pub proof fn law_recalibration_agrees_with_live_mining(
    live: ChainModel,
    block: BlockModel,
    downloaded: ChainModel,
    params: ParamsModel,
)
    requires
        same_window(live.with_block(block), downloaded),
    ensures
        downloaded.recalibrated(params).difficulty == live.applied(block, params).difficulty,
        downloaded.recalibrated(params).height == downloaded.height,
        downloaded.recalibrated(params).chainwork == downloaded.chainwork,
        downloaded.recalibrated(params).stored == downloaded.stored,
{
    law_lwma_is_determined_by_the_window(live.with_block(block), downloaded, params);
}

// ── The moving average in terms of its blocks ────────────────────────────────

/// `value` brought into the range of mining targets.
pub open spec fn as_target(value: int) -> int {
    if value < MIN_TARGET {
        MIN_TARGET as int
    } else if value > MAX_TARGET {
        MAX_TARGET as int
    } else {
        value
    }
}

impl ChainModel {
    /// How long the block at `i` counts as having taken: the time since the block
    /// before it, at least a millisecond and at most six target times.
    pub open spec fn counted_ms(self, i: int) -> int {
        let gap = self.stored[i as u64].timestamp - self.stored[(i - 1) as u64].timestamp;
        if gap < 1 {
            1
        } else if gap > 6 * self.target_block_ms {
            6 * self.target_block_ms
        } else {
            gap
        }
    }

    /// The target that the block at `i` counts with: the one it records, or the
    /// chain's difficulty where it records none.
    pub open spec fn counted_target(self, i: int) -> int {
        if self.stored[i as u64].difficulty_target == 0 {
            self.difficulty as int
        } else {
            self.stored[i as u64].difficulty_target as int
        }
    }
}

/// The number of pairs `1 <= a <= b <= n`.
spec fn triangle(n: int) -> int {
    n * (n + 1) / 2
}

proof fn lemma_triangle(n: int)
    requires
        n >= 1,
    ensures
        triangle(n) == triangle(n - 1) + n,
        triangle(n) >= 1,
        forall|t: int| (#[trigger] (t * n)) * (n + 1) / 2 == t * triangle(n),
{
    lemma_even(1, n);
    lemma_even(1, n - 1);
    assert(1 * n * (n + 1) == n * (n + 1)) by (nonlinear_arith);
    assert(1 * (n - 1) * (n - 1 + 1) == (n - 1) * n) by (nonlinear_arith);
    assert(n * (n + 1) == (n - 1) * n + 2 * n) by (nonlinear_arith);
    assert((n - 1) * n >= 0) by (nonlinear_arith)
        requires
            n >= 1,
    ;
    assert forall|t: int| (#[trigger] (t * n)) * (n + 1) / 2 == t * triangle(n) by {
        let k = triangle(n);
        assert(t * n * (n + 1) == 2 * (t * k)) by (nonlinear_arith)
            requires
                n * (n + 1) == 2 * k,
        ;
    }
}

proof fn lemma_sums_between(c: ChainModel, lo: int, hi: int, a: int, b: int, n: int)
    requires
        0 <= n <= c.window(),
        c.target_block_ms > 0,
        forall|i: int|
            c.height - c.window() < i <= c.height ==> lo <= #[trigger] c.counted_ms(i) <= hi,
        forall|i: int|
            c.height - c.window() < i <= c.height ==> a <= #[trigger] c.counted_target(i) <= b,
    ensures
        lo * triangle(n) <= crate::model::weighted_time(
            c.stored,
            c.height - c.window(),
            c.target_block_ms as int,
            n,
        ) <= hi * triangle(n),
        n * a <= crate::model::target_sum(c.stored, c.height - c.window(), c.difficulty, n) <= n
            * b,
    decreases n,
{
    let t = c.target_block_ms as int;
    if n > 0 {
        lemma_sums_between(c, lo, hi, a, b, n - 1);
        lemma_triangle(n);
        let i = c.height - c.window() + n;
        let solve = crate::model::solve_ms(c.stored, i, t);
        assert(c.counted_ms(i) == solve);
        assert(c.counted_target(i) == crate::model::target_of(c.stored[i as u64], c.difficulty));
        assert(n * lo <= n * solve <= n * hi) by (nonlinear_arith)
            requires
                n > 0,
                lo <= solve <= hi,
        ;
        assert(lo * triangle(n) == lo * triangle(n - 1) + n * lo) by (nonlinear_arith)
            requires
                triangle(n) == triangle(n - 1) + n,
        ;
        assert(hi * triangle(n) == hi * triangle(n - 1) + n * hi) by (nonlinear_arith)
            requires
                triangle(n) == triangle(n - 1) + n,
        ;
        assert((n - 1) * a + a == n * a) by (nonlinear_arith);
        assert((n - 1) * b + b == n * b) by (nonlinear_arith);
    } else {
        assert(triangle(0) == 0);
        assert(lo * 0 == 0 && hi * 0 == 0 && 0 * a == 0 && 0 * b == 0) by (nonlinear_arith);
    }
}

proof fn lemma_cancel(x: int, y: int, k: int)
    requires
        0 <= x,
        y > 0,
        k > 0,
    ensures
        (x * k) / (y * k) == x / y,
        y * k > 0,
{
    assert(y * k > 0) by (nonlinear_arith)
        requires
            y > 0,
            k > 0,
    ;
    let q = x / y;
    let r = x % y;
    vstd::arithmetic::div_mod::lemma_fundamental_div_mod(x, y);
    assert(x * k == q * (y * k) + r * k) by (nonlinear_arith)
        requires
            x == y * q + r,
    ;
    assert(0 <= r * k < y * k) by (nonlinear_arith)
        requires
            0 <= r < y,
            k > 0,
    ;
    vstd::arithmetic::div_mod::lemma_fundamental_div_mod_converse(x * k, y * k, q, r * k);
}

proof fn lemma_div_monotone(x: int, y: int, d: int)
    requires
        x <= y,
        d > 0,
    ensures
        x / d <= y / d,
{
    vstd::arithmetic::div_mod::lemma_div_is_ordered(x, y, d);
}

proof fn lemma_product_monotone(a: int, b: int, x: int, y: int)
    requires
        0 <= a <= b,
        0 <= x <= y,
    ensures
        0 <= a * x <= b * y,
{
    assert(0 <= a * x <= b * y) by (nonlinear_arith)
        requires
            0 <= a <= b,
            0 <= x <= y,
    ;
}

/// The new target lies between what the fastest block with the hardest target and
/// what the slowest block with the easiest target would give throughout: the target
/// times the solve time over the target block time.
pub proof fn law_lwma_follows_targets_and_solve_times(
    c: ChainModel,
    params: ParamsModel,
    lo: int,
    hi: int,
    a: int,
    b: int,
)
    requires
        c.window_ready(),
        1 <= lo,
        0 <= a,
        forall|i: int|
            c.height - c.window() < i <= c.height ==> lo <= #[trigger] c.counted_ms(i) <= hi,
        forall|i: int|
            c.height - c.window() < i <= c.height ==> a <= #[trigger] c.counted_target(i) <= b,
    ensures
        as_target(a * lo / c.target_block_ms as int) <= c.lwma(params),
        c.lwma(params) <= as_target(b * hi / c.target_block_ms as int),
{
    let n = c.window();
    let t = c.target_block_ms as int;
    let tri = triangle(n);
    lemma_sums_between(c, lo, hi, a, b, n);
    lemma_triangle(n);
    let spent = crate::model::weighted_time(c.stored, c.height - n, t, n);
    let sum = crate::model::target_sum(c.stored, c.height - n, c.difficulty, n);
    let ideal = t * n * (n + 1) / 2;
    assert(ideal == t * tri);
    lemma_cancel(0, t, tri);
    assert(lo * tri >= 1) by (nonlinear_arith)
        requires
            lo >= 1,
            tri >= 1,
    ;
    let avg = sum / n;
    lemma_div_monotone(n * a, sum, n);
    lemma_div_monotone(sum, n * b, n);
    vstd::arithmetic::div_mod::lemma_div_multiples_vanish(a, n);
    vstd::arithmetic::div_mod::lemma_div_multiples_vanish(b, n);
    assert(a <= avg <= b);
    lemma_product_monotone(a, avg, lo * tri, spent);
    lemma_product_monotone(avg, b, spent, hi * tri);
    assert(a * (lo * tri) == (a * lo) * tri) by (nonlinear_arith);
    assert(b * (hi * tri) == (b * hi) * tri) by (nonlinear_arith);
    lemma_product_monotone(0, a, 0, lo);
    let last = c.height as int;
    assert(c.counted_ms(last) >= lo && c.counted_target(last) >= a);
    lemma_product_monotone(0, b, 0, hi);
    lemma_cancel(a * lo, t, tri);
    lemma_cancel(b * hi, t, tri);
    lemma_div_monotone((a * lo) * tri, avg * spent, ideal);
    lemma_div_monotone(avg * spent, (b * hi) * tri, ideal);
}

/// Blocks that all carry one target and all took one time change the target in
/// proportion to that time: twice the target block time makes mining twice as easy,
/// half of it twice as hard.
pub proof fn law_lwma_is_proportional(c: ChainModel, params: ParamsModel, target: int, took: int)
    requires
        c.window_ready(),
        forall|i: int|
            c.height - c.window() < i <= c.height ==> #[trigger] c.counted_ms(i) == took,
        forall|i: int|
            c.height - c.window() < i <= c.height ==> #[trigger] c.counted_target(i) == target,
    ensures
        c.lwma(params) == as_target(target * took / c.target_block_ms as int),
{
    assert(c.counted_ms(c.height as int) == took);
    assert(c.counted_target(c.height as int) == target);
    law_lwma_follows_targets_and_solve_times(c, params, took, took, target, target);
}

/// Blocks that were all too slow make mining easier, and blocks that were all too
/// fast make it harder, as far as the allowed targets go.
pub proof fn law_lwma_answers_slow_and_fast_blocks(
    c: ChainModel,
    params: ParamsModel,
    target: int,
    took: int,
)
    requires
        c.window_ready(),
        MIN_TARGET <= target <= MAX_TARGET,
        forall|i: int|
            c.height - c.window() < i <= c.height ==> #[trigger] c.counted_target(i) == target,
    ensures
        (forall|i: int|
            c.height - c.window() < i <= c.height ==> #[trigger] c.counted_ms(i) >= took) && took
            >= c.target_block_ms ==> c.lwma(params) >= target,
        (forall|i: int|
            c.height - c.window() < i <= c.height ==> #[trigger] c.counted_ms(i) >= took) && target
            < MAX_TARGET && target * (took - c.target_block_ms) >= c.target_block_ms ==> c.lwma(
            params,
        ) > target,
        (forall|i: int|
            c.height - c.window() < i <= c.height ==> #[trigger] c.counted_ms(i) <= took) && 1
            <= took <= c.target_block_ms ==> c.lwma(params) <= target,
        (forall|i: int|
            c.height - c.window() < i <= c.height ==> #[trigger] c.counted_ms(i) <= took) && 1
            <= took < c.target_block_ms && target > MIN_TARGET ==> c.lwma(params) < target,
{
    let t = c.target_block_ms as int;
    if forall|i: int|
        c.height - c.window() < i <= c.height ==> #[trigger] c.counted_ms(i) >= took {
        if took >= t {
            law_lwma_follows_targets_and_solve_times(c, params, took, 6 * t, target, target);
            assert(target * took / t >= target) by (nonlinear_arith)
                requires
                    took >= t > 0,
                    target >= 0,
            ;
        }
        if target * (took - t) >= t {
            assert(took > t) by (nonlinear_arith)
                requires
                    target * (took - t) >= t,
                    t > 0,
                    target >= 0,
            ;
            assert(target * took / t >= target + 1) by (nonlinear_arith)
                requires
                    target * (took - t) >= t,
                    t > 0,
            ;
        }
    }
    if (forall|i: int|
        c.height - c.window() < i <= c.height ==> #[trigger] c.counted_ms(i) <= took) && 1 <= took
        <= t {
        law_lwma_follows_targets_and_solve_times(c, params, 1, took, target, target);
        assert(target * took / t <= target) by (nonlinear_arith)
            requires
                1 <= took <= t,
                target >= 0,
        ;
        if took < t {
            assert(target * took < target * t) by (nonlinear_arith)
                requires
                    took < t,
                    target > 0,
            ;
            assert(target * took / t < target) by (nonlinear_arith)
                requires
                    target * took < target * t,
                    t > 0,
            ;
        }
    }
}

proof fn lemma_sums_with_outlier(c: ChainModel, j: int, took: int, other: int, target: int, n: int)
    requires
        0 <= n <= c.window(),
        c.target_block_ms > 0,
        1 <= j <= c.window(),
        c.counted_ms(c.height - c.window() + j) == took,
        c.counted_target(c.height - c.window() + j) == other,
        forall|i: int|
            c.height - c.window() < i <= c.height && i != c.height - c.window() + j
                ==> #[trigger] c.counted_ms(i) == c.target_block_ms,
        forall|i: int|
            c.height - c.window() < i <= c.height && i != c.height - c.window() + j
                ==> #[trigger] c.counted_target(i) == target,
    ensures
        crate::model::weighted_time(
            c.stored,
            c.height - c.window(),
            c.target_block_ms as int,
            n,
        ) == c.target_block_ms * triangle(n) + if n >= j {
            j * (took - c.target_block_ms)
        } else {
            0
        },
        crate::model::target_sum(c.stored, c.height - c.window(), c.difficulty, n) == n * target
            + if n >= j {
            other - target
        } else {
            0
        },
    decreases n,
{
    let t = c.target_block_ms as int;
    if n > 0 {
        lemma_sums_with_outlier(c, j, took, other, target, n - 1);
        lemma_triangle(n);
        let i = c.height - c.window() + n;
        let solve = crate::model::solve_ms(c.stored, i, t);
        assert(c.counted_ms(i) == solve);
        assert(c.counted_target(i) == crate::model::target_of(c.stored[i as u64], c.difficulty));
        assert(t * triangle(n) == t * triangle(n - 1) + n * t) by (nonlinear_arith)
            requires
                triangle(n) == triangle(n - 1) + n,
        ;
        assert(n * solve == n * t + n * (solve - t)) by (nonlinear_arith);
        assert((n - 1) * target + target == n * target) by (nonlinear_arith);
        if n != j {
            assert(n * (solve - t) == 0) by (nonlinear_arith)
                requires
                    solve == t,
            ;
        }
    } else {
        assert(triangle(0) == 0);
        assert(t * 0 == 0 && 0 * target == 0) by (nonlinear_arith);
    }
}

/// Every block of the window counts: one that is slower than the others shifts the
/// new target by its place in the window, the newest one most, and one with another
/// target by its share in the average, wherever it stands.
pub proof fn law_lwma_weighs_each_block(
    c: ChainModel,
    params: ParamsModel,
    j: int,
    took: int,
    other: int,
    target: int,
)
    requires
        c.window_ready(),
        1 <= j <= c.window(),
        c.counted_ms(c.height - c.window() + j) == took,
        c.counted_target(c.height - c.window() + j) == other,
        forall|i: int|
            c.height - c.window() < i <= c.height && i != c.height - c.window() + j
                ==> #[trigger] c.counted_ms(i) == c.target_block_ms,
        forall|i: int|
            c.height - c.window() < i <= c.height && i != c.height - c.window() + j
                ==> #[trigger] c.counted_target(i) == target,
    ensures
        ({
            let n = c.window();
            let steady = c.target_block_ms * (n * (n + 1) / 2);
            c.lwma(params) == as_target(
                ((n - 1) * target + other) / n * (steady + j * (took - c.target_block_ms))
                    / steady,
            )
        }),
{
    let n = c.window();
    let t = c.target_block_ms as int;
    lemma_sums_with_outlier(c, j, took, other, target, n);
    lemma_triangle(n);
    lemma_spent_bounds(c, n);
    lemma_cancel(0, t, triangle(n));
    assert(t * n * (n + 1) / 2 == t * triangle(n));
    assert(n * target + (other - target) == (n - 1) * target + other) by (nonlinear_arith);
}

/// The sum of the first `n` values of a sequence of numbers.
pub open spec fn total(values: spec_fn(int) -> int, n: int) -> int
    decreases n,
{
    if n <= 0 {
        0
    } else {
        total(values, n - 1) + values(n)
    }
}

proof fn lemma_totals(c: ChainModel, n: int)
    requires
        0 <= n <= c.window(),
        c.target_block_ms > 0,
    ensures
        crate::model::weighted_time(
            c.stored,
            c.height - c.window(),
            c.target_block_ms as int,
            n,
        ) == total(|k: int| k * c.counted_ms(c.height - c.window() + k), n),
        crate::model::target_sum(c.stored, c.height - c.window(), c.difficulty, n) == total(
            |k: int| c.counted_target(c.height - c.window() + k),
            n,
        ),
    decreases n,
{
    if n > 0 {
        lemma_totals(c, n - 1);
        let i = c.height - c.window() + n;
        assert(c.counted_ms(i) == crate::model::solve_ms(
            c.stored,
            i,
            c.target_block_ms as int,
        ));
        assert(c.counted_target(i) == crate::model::target_of(c.stored[i as u64], c.difficulty));
    }
}

/// The new target is the average target of the window, times the solve times weighted
/// by their place, over what these would come to at the target block time.
pub proof fn law_lwma_is_the_weighted_average(c: ChainModel, params: ParamsModel)
    requires
        c.window_ready(),
    ensures
        ({
            let n = c.window();
            let start = c.height - n;
            let targets = total(|k: int| c.counted_target(start + k), n);
            let times = total(|k: int| k * c.counted_ms(start + k), n);
            c.lwma(params) == as_target(
                targets / n * times / (c.target_block_ms * (n * (n + 1) / 2)),
            )
        }),
{
    let n = c.window();
    let t = c.target_block_ms as int;
    lemma_totals(c, n);
    lemma_triangle(n);
    lemma_spent_bounds(c, n);
    lemma_cancel(0, t, triangle(n));
    assert(t * n * (n + 1) / 2 == t * triangle(n));
}

/// There is nothing to average before the second block, and without the blocks of
/// the window, or with no target block time, the difficulty stays.
pub proof fn law_lwma_without_a_window(c: ChainModel, params: ParamsModel)
    ensures
        c.height < 2 ==> c.lwma(params) == params.testnet_target,
        c.height >= 2 && c.target_block_ms == 0 ==> c.lwma(params) == c.difficulty,
        c.height >= 2 && (exists|i: u64|
            c.height - LWMA_WINDOW <= i <= c.height && !#[trigger] c.stored.dom().contains(i))
            ==> c.lwma(params) == c.difficulty,
{
    let n = c.window();
    if c.target_block_ms == 0 {
        assert(0 * n * (n + 1) / 2 == 0) by (nonlinear_arith);
    }
}

/// Blocks without targets adjust the difficulty in proportion to the time that the
/// window took, and at most fourfold. No other block but the first and the last of
/// the window has a say.
pub proof fn law_next_difficulty_is_proportional(c: ChainModel, params: ParamsModel)
    requires
        c.height >= DAA_WINDOW,
        c.stored.dom().contains(c.height),
        c.stored.dom().contains((c.height - DAA_WINDOW) as u64),
        c.target_block_ms > 0,
    ensures
        ({
            let took = c.stored[c.height].timestamp - c.stored[(c.height
                - DAA_WINDOW) as u64].timestamp;
            let due = c.target_block_ms * DAA_WINDOW;
            let before = c.difficulty as int;
            let after = c.next_difficulty(params) as int;
            &&& MIN_TARGET <= after <= MAX_TARGET || took <= 0
            &&& took <= 0 ==> after == if before >= 4 {
                before / 4
            } else {
                1
            }
            &&& 0 < took && 4 * took <= due ==> after == as_target(before / 4)
            &&& took >= 4 * due ==> after == as_target(4 * before)
            &&& due <= 4 * took && took <= 4 * due && due <= before * took && before * took < (
            MAX_TARGET + 1) * due ==> after * due <= before * took < (after + 1) * due
            &&& due <= 4 * took && took <= 4 * due && before * took < due ==> after == MIN_TARGET
            &&& due <= 4 * took && took <= 4 * due && before * took >= (MAX_TARGET + 1) * due
                ==> after == MAX_TARGET
        }),
{
    let took = c.stored[c.height].timestamp - c.stored[(c.height - DAA_WINDOW) as u64].timestamp;
    let due = c.target_block_ms * DAA_WINDOW;
    let before = c.difficulty as int;
    if took > 0 {
        let q = before * took / due;
        vstd::arithmetic::div_mod::lemma_fundamental_div_mod(before * took, due);
        assert(q * due <= before * took < (q + 1) * due) by (nonlinear_arith)
            requires
                before * took == due * q + (before * took) % due,
                0 <= (before * took) % due < due,
        ;
        assert(0 <= before * took) by (nonlinear_arith)
            requires
                0 <= before,
                0 < took,
        ;
        if 4 * took <= due {
            assert(4 * q <= before) by (nonlinear_arith)
                requires
                    q * due <= before * took,
                    4 * took <= due,
                    due > 0,
                    before >= 0,
            ;
        }
        if took >= 4 * due {
            assert(q >= 4 * before) by (nonlinear_arith)
                requires
                    before * took < (q + 1) * due,
                    took >= 4 * due,
                    due > 0,
                    before >= 0,
            ;
        }
        if due <= 4 * took && took <= 4 * due {
            assert(q >= before / 4) by (nonlinear_arith)
                requires
                    before * took < (q + 1) * due,
                    due <= 4 * took,
                    due > 0,
                    before >= 0,
            ;
            assert(q <= 4 * before) by (nonlinear_arith)
                requires
                    q * due <= before * took,
                    took <= 4 * due,
                    due > 0,
                    before >= 0,
            ;
            if before * took < due {
                assert(q < 1) by (nonlinear_arith)
                    requires
                        q * due <= before * took,
                        before * took < due,
                        due > 0,
                ;
                assert(before < 4) by (nonlinear_arith)
                    requires
                        before * took < due,
                        due <= 4 * took,
                        took > 0,
                        before >= 0,
                ;
            }
            if before * took >= (MAX_TARGET + 1) * due {
                assert(q >= MAX_TARGET + 1) by (nonlinear_arith)
                    requires
                        before * took < (q + 1) * due,
                        before * took >= (MAX_TARGET + 1) * due,
                        due > 0,
                ;
            }
            if due <= before * took && before * took < (MAX_TARGET + 1) * due {
                assert(q >= 1) by (nonlinear_arith)
                    requires
                        before * took < (q + 1) * due,
                        due <= before * took,
                        due > 0,
                ;
                assert(q <= MAX_TARGET) by (nonlinear_arith)
                    requires
                        q * due <= before * took,
                        before * took < (MAX_TARGET + 1) * due,
                        due > 0,
                ;
            }
        }
    }
}

/// Before there is a window, or without its two ends, the difficulty by ratio is the
/// initial one.
pub proof fn law_next_difficulty_without_a_window(c: ChainModel, params: ParamsModel)
    requires
        c.height < DAA_WINDOW || !c.stored.dom().contains(c.height) || !c.stored.dom().contains(
            (c.height - DAA_WINDOW) as u64,
        ),
    ensures
        c.next_difficulty(params) == params.testnet_target,
{
}

// ── The target block time in terms of its blocks ─────────────────────────────

/// `value` brought into the range of target block times.
pub open spec fn as_block_time(value: int) -> int {
    if value < MIN_TARGET_BLOCK_MS {
        MIN_TARGET_BLOCK_MS as int
    } else if value > MAX_TARGET_BLOCK_MS {
        MAX_TARGET_BLOCK_MS as int
    } else {
        value
    }
}

/// The blocks from `low` to `high` that came too soon after the one before.
pub open spec fn fast_blocks(c: ChainModel, low: int, high: int) -> Set<int> {
    vstd::set_lib::set_int_range(low, high + 1).filter(
        |i: int|
            c.stored.dom().contains(i as u64) && c.stored.dom().contains((i - 1) as u64)
                && c.stored[i as u64].timestamp - c.stored[(i - 1) as u64].timestamp
                < crate::params::FAST_BLOCK_THRESHOLD_MS,
    )
}

proof fn lemma_fast_blocks(c: ChainModel, low: int, high: int)
    requires
        low <= high + 1,
    ensures
        fast_blocks(c, low, high).finite(),
        fast_blocks(c, low, high).len() == crate::model::fast_count(c.stored, low, high),
    decreases high - low + 1,
{
    vstd::set_lib::lemma_int_range(low, high + 1);
    if high < low {
        assert(fast_blocks(c, low, high) =~= Set::empty());
    } else {
        lemma_fast_blocks(c, low, high - 1);
        let before = fast_blocks(c, low, high - 1);
        let after = fast_blocks(c, low, high);
        assert(!before.contains(high));
        if after.contains(high) {
            assert(after =~= before.insert(high));
        } else {
            assert(after =~= before);
        }
    }
}

/// The target block time goes up a step if more than a fifth of the last blocks came
/// too soon, down a step if fewer than a twentieth did, and stays otherwise, always
/// within its bounds.
pub proof fn law_cadence_follows_the_fast_blocks(c: ChainModel)
    requires
        c.height >= ABC_WINDOW,
    ensures
        ({
            let fast = fast_blocks(c, c.height - ABC_WINDOW + 1, c.height as int).len();
            let before = c.target_block_ms as int;
            let after = c.cadence() as int;
            &&& 5 * fast > ABC_WINDOW ==> after == as_block_time(before + ABC_STEP_MS)
            &&& 20 * fast < ABC_WINDOW ==> after == as_block_time(before - ABC_STEP_MS)
            &&& 5 * fast <= ABC_WINDOW && 20 * fast >= ABC_WINDOW ==> after == as_block_time(
                before,
            )
        }),
{
    lemma_fast_blocks(c, c.height - ABC_WINDOW + 1, c.height as int);
}

/// A chain shorter than the window keeps its target block time.
pub proof fn law_cadence_of_a_short_chain(c: ChainModel)
    requires
        c.height < ABC_WINDOW,
    ensures
        c.cadence() == c.target_block_ms,
{
}

} // verus!
