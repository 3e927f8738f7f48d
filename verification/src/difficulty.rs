//! How the chain adjusts its mining target and its target block time.

use vstd::prelude::*;

use crate::blockchain::Blockchain;
use crate::params::{
    ABC_STEP_MS, ABC_WINDOW, BASE_TARGET_BLOCK_MS, DAA_WINDOW, FAST_BLOCK_THRESHOLD_MS,
    LWMA_WINDOW, MAX_TARGET, MAX_TARGET_BLOCK_MS, MIN_TARGET, MIN_TARGET_BLOCK_MS,
};

verus! {

proof fn lemma_weighted_time_bounds(
    stored: Map<u64, crate::block::BlockModel>,
    start: int,
    target_ms: int,
    n: int,
)
    requires
        0 <= n,
        0 <= target_ms,
    ensures
        0 <= crate::model::weighted_time(stored, start, target_ms, n) <= 3 * target_ms * (n * (n
            + 1)),
    decreases n,
{
    if n > 0 {
        lemma_weighted_time_bounds(stored, start, target_ms, n - 1);
        let solve = crate::model::solve_ms(stored, start + n, target_ms);
        assert(0 <= solve <= 6 * target_ms);
        assert(0 <= n * solve <= n * (6 * target_ms)) by (nonlinear_arith)
            requires
                0 <= n,
                0 <= solve <= 6 * target_ms,
        ;
        assert(3 * target_ms * ((n - 1) * n) + n * (6 * target_ms) == 3 * target_ms * (n * (n + 1)))
            by (nonlinear_arith);
    }
}

proof fn lemma_target_sum_bounds(
    stored: Map<u64, crate::block::BlockModel>,
    start: int,
    fallback: u64,
    n: int,
)
    requires
        0 <= n,
    ensures
        0 <= crate::model::target_sum(stored, start, fallback, n) <= n * u64::MAX,
    decreases n,
{
    if n > 0 {
        lemma_target_sum_bounds(stored, start, fallback, n - 1);
        assert((n - 1) * u64::MAX + u64::MAX == n * u64::MAX) by (nonlinear_arith);
    }
}

impl Blockchain {
    /// Linearly weighted moving average over the last blocks. The newest block
    /// weighs most, and a solve time counts at least one millisecond and at most
    /// six target times, whatever its timestamps say.
    pub fn compute_lwma(&self) -> (target: u64)
        requires
            self.wf(),
        ensures
            target == self@.lwma(self.params@),
    {
        if self.height < 2 {
            return self.params.testnet_target;
        }
        let n: u64 = if self.height < LWMA_WINDOW {
            self.height
        } else {
            LWMA_WINDOW
        };
        let t: u128 = self.target_block_ms as u128;
        let start: u64 = self.height - n;
        let mut spent: u128 = 0;
        let mut sum_targets: u128 = 0;
        let mut prev = match self.block_at(start) {
            Some(block) => block,
            None => {
                assert(!self@.stored.dom().contains(start));
                return self.difficulty;
            },
        };
        let mut i: u64 = 1;
        while i <= n
            invariant
                1 <= i <= n + 1,
                2 <= n <= 60,
                start + n == self.height,
                n == crate::model::min_int(LWMA_WINDOW as int, self.height as int),
                2 <= self.height,
                t == self.target_block_ms,
                self.wf(),
                spent == crate::model::weighted_time(
                    self@.stored,
                    start as int,
                    t as int,
                    i - 1,
                ),
                sum_targets == crate::model::target_sum(
                    self@.stored,
                    start as int,
                    self.difficulty,
                    i - 1,
                ),
                crate::model::present(self@.stored, start as int, start + i - 1),
                prev@ == self@.stored[(start + i - 1) as u64],
            decreases n + 1 - i,
        {
            let h: u64 = start + i;
            let curr = match self.block_at(h) {
                Some(block) => block,
                None => {
                    assert(!self@.stored.dom().contains(h));
                    return self.difficulty;
                },
            };
            let raw: u128 = curr.timestamp.saturating_sub(prev.timestamp) as u128;
            let at_least: u128 = if raw < 1 {
                1
            } else {
                raw
            };
            let solvetime: u128 = if at_least > 6 * t {
                6 * t
            } else {
                at_least
            };
            let target: u128 = if curr.difficulty_target != 0 {
                curr.difficulty_target as u128
            } else {
                self.difficulty as u128
            };
            proof {
                assert(((start + i) - 1) as u64 == (start + i - 1) as u64);
                assert(solvetime == crate::model::solve_ms(self@.stored, start + i, t as int));
                lemma_weighted_time_bounds(self@.stored, start as int, t as int, i as int);
                lemma_target_sum_bounds(self@.stored, start as int, self.difficulty, i as int);
                lemma_window_product(i as int);
                assert(3 * t * (i * (i + 1)) <= 3 * t * 3660) by (nonlinear_arith)
                    requires
                        0 <= i * (i + 1) <= 3660,
                        0 <= t,
                ;
                lemma_weighted_time_bounds(self@.stored, start as int, t as int, i - 1);
                assert(0 <= i * solvetime) by (nonlinear_arith)
                    requires
                        0 <= i,
                        0 <= solvetime,
                ;
            }
            spent = spent + (i as u128) * solvetime;
            sum_targets = sum_targets + target;
            prev = curr;
            i = i + 1;
        }
        assert(i == n + 1);
        proof {
            lemma_weighted_time_bounds(self@.stored, start as int, t as int, n as int);
            lemma_target_sum_bounds(self@.stored, start as int, self.difficulty, n as int);
            lemma_window_product(n as int);
            assert(3 * t * (n * (n + 1)) <= 3 * t * 3660) by (nonlinear_arith)
                requires
                    0 <= n * (n + 1) <= 3660,
                    0 <= t,
            ;
            assert(0 <= t * n <= t * 60 && t * n * (n + 1) <= t * 60 * 61) by (nonlinear_arith)
                requires
                    0 <= t,
                    0 <= n <= 60,
            ;
        }
        let ideal: u128 = t * (n as u128) * ((n as u128) + 1) / 2;
        if spent == 0 || ideal == 0 {
            return self.difficulty;
        }
        let avg_target: u128 = sum_targets / (n as u128);
        proof {
            assert(avg_target <= u64::MAX) by (nonlinear_arith)
                requires
                    avg_target == sum_targets / (n as u128),
                    sum_targets <= n * u64::MAX,
                    n >= 2,
            ;
            assert(t * n * (n + 1) == t * (n * (n + 1))) by (nonlinear_arith);
            assert(3 * t * (n * (n + 1)) == 3 * (t * (n * (n + 1)))) by (nonlinear_arith);
            assert((t * (n * (n + 1))) % 2 == 0) by {
                lemma_even_product(t as int, n as int);
            }
        }
        let new_target: u128 = scaled(avg_target, spent, ideal);
        if new_target < MIN_TARGET as u128 {
            MIN_TARGET
        } else if new_target > MAX_TARGET as u128 {
            MAX_TARGET
        } else {
            new_target as u64
        }
    }

    /// Adjusts the target in proportion to the time that the last blocks took,
    /// at most fourfold either way.
    pub fn compute_next_difficulty(&self) -> (target: u64)
        requires
            self@.ratio_defined(),
        ensures
            target == self@.next_difficulty(self.params@),
    {
        if self.height < DAA_WINDOW {
            return self.params.testnet_target;
        }
        let window_end = match self.block_at(self.height) {
            Some(block) => block,
            None => return self.params.testnet_target,
        };
        let window_start = match self.block_at(self.height - DAA_WINDOW) {
            Some(block) => block,
            None => return self.params.testnet_target,
        };
        let actual_ms: u64 = window_end.timestamp.saturating_sub(window_start.timestamp);
        let target_ms: u128 = (self.target_block_ms as u128) * (DAA_WINDOW as u128);
        let quarter: u64 = self.difficulty / 4;
        if actual_ms == 0 {
            return if quarter > MIN_TARGET {
                quarter
            } else {
                MIN_TARGET
            };
        }
        assert(self.difficulty * actual_ms <= u64::MAX * u64::MAX) by (nonlinear_arith)
            requires
                0 <= self.difficulty <= u64::MAX,
                0 <= actual_ms <= u64::MAX,
        ;
        let mut new_target: u128 = (self.difficulty as u128) * (actual_ms as u128) / target_ms;
        if new_target < quarter as u128 {
            new_target = quarter as u128;
        }
        if new_target > (self.difficulty as u128) * 4 {
            new_target = (self.difficulty as u128) * 4;
        }
        if new_target < MIN_TARGET as u128 {
            MIN_TARGET
        } else if new_target > MAX_TARGET as u128 {
            MAX_TARGET
        } else {
            new_target as u64
        }
    }

    /// Adaptive block cadence: counts the blocks that came too soon after their
    /// predecessor. Many of them slow the chain down, few of them speed it up.
    pub fn compute_adaptive_cadence(&self) -> (target_ms: u64)
        requires
            self.wf(),
        ensures
            target_ms == self@.cadence(),
    {
        if self.height < ABC_WINDOW {
            return self.target_block_ms;
        }
        let start: u64 = self.height - ABC_WINDOW + 1;
        let mut fast_blocks: u64 = 0;
        let mut k: u64 = 0;
        while k < ABC_WINDOW
            invariant
                k <= ABC_WINDOW,
                start == self.height - ABC_WINDOW + 1,
                ABC_WINDOW <= self.height,
                fast_blocks <= k,
                fast_blocks == crate::model::fast_count(
                    self@.stored,
                    start as int,
                    start + k - 1,
                ),
            decreases ABC_WINDOW - k,
        {
            let i: u64 = start + k;
            if let Some(curr) = self.block_at(i) {
                if let Some(prev) = self.block_at(i - 1) {
                    if curr.timestamp.saturating_sub(prev.timestamp) < FAST_BLOCK_THRESHOLD_MS {
                        fast_blocks = fast_blocks + 1;
                    }
                }
            }
            k = k + 1;
        }
        let moved: u64 = if fast_blocks * 5 > ABC_WINDOW {
            self.target_block_ms.saturating_add(ABC_STEP_MS)
        } else if fast_blocks * 20 < ABC_WINDOW {
            self.target_block_ms.saturating_sub(ABC_STEP_MS)
        } else {
            self.target_block_ms
        };
        if moved < MIN_TARGET_BLOCK_MS {
            MIN_TARGET_BLOCK_MS
        } else if moved > MAX_TARGET_BLOCK_MS {
            MAX_TARGET_BLOCK_MS
        } else {
            moved
        }
    }

    /// Puts the target block time back to the base value once the initial
    /// download is over. The difficulty stays: it is the one that the last
    /// downloaded block was mined under.
    pub fn recalibrate_abc(&mut self)
        requires
            old(self).wf(),
        ensures
            final(self).follows(old(self)),
            final(self)@ == old(self)@.abc_reset(),
    {
        self.set_target_time(BASE_TARGET_BLOCK_MS);
    }

    /// Works difficulty and target block time out from the last blocks.
    pub fn recalibrate_difficulty_after_ibd(&mut self)
        requires
            old(self).wf(),
        ensures
            final(self).follows(old(self)),
            final(self)@ == old(self)@.recalibrated(old(self).params@),
    {
        self.difficulty = if self.height >= LWMA_WINDOW {
            self.compute_lwma()
        } else {
            self.params.testnet_target
        };
        let target_ms: u64 = if self.height >= ABC_WINDOW {
            self.compute_adaptive_cadence()
        } else {
            BASE_TARGET_BLOCK_MS
        };
        self.set_difficulty(self.difficulty);
        self.set_target_time(target_ms);
    }
}

/// The product of two neighbours is even.
proof fn lemma_even_product(t: int, n: int)
    ensures
        (t * (n * (n + 1))) % 2 == 0,
{
    let k = n / 2;
    if n % 2 == 0 {
        assert(t * (n * (n + 1)) == 2 * (t * k * (n + 1))) by (nonlinear_arith)
            requires
                n == 2 * k,
        ;
    } else {
        assert(t * (n * (n + 1)) == 2 * (t * n * (k + 1))) by (nonlinear_arith)
            requires
                n == 2 * k + 1,
        ;
    }
}

/// `a * b / c`, where the product can exceed 128 bits: `a` is multiplied in two
/// halves.
fn scaled(a: u128, b: u128, c: u128) -> (quotient: u128)
    requires
        a <= u64::MAX,
        0 < c <= 1830 * u64::MAX,
        b <= 6 * c,
    ensures
        quotient == a as int * b as int / c as int,
{
    let whole: u128 = b / c;
    let rest: u128 = b % c;
    let high: u128 = a / 0x1_0000_0000;
    let low: u128 = a % 0x1_0000_0000;
    proof {
        vstd::arithmetic::div_mod::lemma_fundamental_div_mod(b as int, c as int);
        assert(whole <= 6) by (nonlinear_arith)
            requires
                b == c * whole + rest,
                b <= 6 * c,
                0 <= rest,
                0 < c,
        ;
        assert(high * rest <= 0xffff_ffff * rest) by (nonlinear_arith)
            requires
                high <= 0xffff_ffff,
                0 <= rest,
        ;
        assert(low * rest <= 0xffff_ffff * rest) by (nonlinear_arith)
            requires
                low <= 0xffff_ffff,
                0 <= rest,
        ;
        assert(a * whole <= u64::MAX * 6) by (nonlinear_arith)
            requires
                a <= u64::MAX,
                0 <= whole <= 6,
        ;
    }
    let first: u128 = high * rest / c;
    let left: u128 = high * rest % c;
    let second: u128 = (left * 0x1_0000_0000 + low * rest) / c;
    let last: u128 = (left * 0x1_0000_0000 + low * rest) % c;
    proof {
        vstd::arithmetic::div_mod::lemma_fundamental_div_mod(high * rest, c as int);
        vstd::arithmetic::div_mod::lemma_fundamental_div_mod(
            left * 0x1_0000_0000 + low * rest,
            c as int,
        );
        let q = a * whole + first * 0x1_0000_0000 + second;
        assert(a * b == q * c + last) by (nonlinear_arith)
            requires
                b == c * whole + rest,
                a == high * 0x1_0000_0000 + low,
                high * rest == c * first + left,
                left * 0x1_0000_0000 + low * rest == c * second + last,
                q == a * whole + first * 0x1_0000_0000 + second,
        ;
        vstd::arithmetic::div_mod::lemma_fundamental_div_mod_converse(
            a * b,
            c as int,
            q,
            last as int,
        );
        assert(first <= 0xffff_ffff) by (nonlinear_arith)
            requires
                high * rest == c * first + left,
                high * rest <= 0xffff_ffff * rest,
                rest < c,
                0 <= left,
        ;
        assert(second <= 0x2_0000_0000) by (nonlinear_arith)
            requires
                left * 0x1_0000_0000 + low * rest == c * second + last,
                low * rest <= 0xffff_ffff * rest,
                rest < c,
                left < c,
                0 <= last,
        ;
    }
    a * whole + first * 0x1_0000_0000 + second
}

proof fn lemma_window_product(n: int)
    requires
        0 <= n <= 60,
    ensures
        0 <= n * (n + 1) <= 3660,
{
    assert(0 <= n * (n + 1) <= 60 * 61) by (nonlinear_arith)
        requires
            0 <= n <= 60,
    ;
}

} // verus!
