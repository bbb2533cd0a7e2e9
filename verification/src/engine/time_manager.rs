//! Dual-limit time management for iterative deepening.
//!
//! Formula:  T_target = time_left / (moves_remaining + 20)  +  increment × 4/5
//!
//! Soft limit (3/5 × T_target) — checked between depths; if expired, skip new depth.
//! Hard limit (3/2 × T_target) — checked inside the search every N nodes via an
//!   abort flag; triggers immediate return from the current search.
//!
//! Deadlines are kept as milliseconds after `start`.
use vstd::prelude::*;
use std::sync::atomic::AtomicBool;
use std::sync::Arc;
use std::time::{Duration, Instant};
use super::abort::new_flag;
use super::clock;

verus! {

pub const MOVES_TO_GO_K: u64 = 20u64;

/// Switch to panic mode below this (ms remaining).
pub const PANIC_MS: u64 = 500u64;

/// `floor(x * num / den)`, saturated to `u64`.
pub open spec fn scaled(x: int, num: int, den: int) -> int {
    if x * num / den > u64::MAX {
        u64::MAX as int
    } else {
        x * num / den
    }
}

/// `x + y`, saturated at `u64::MAX`.
pub open spec fn sat_add_u64(x: int, y: int) -> u64 {
    if x + y > u64::MAX { u64::MAX } else { (x + y) as u64 }
}

/// `tm` with both deadlines pushed back by `percent` % of the hard time left
/// `now` milliseconds after the start.
pub open spec fn extended(tm: TimeManager, now: u64, percent: u64) -> TimeManager {
    let ext = scaled(if tm.hard_deadline >= now { tm.hard_deadline - now } else { 0 }, percent as int, 100);
    TimeManager {
        soft_deadline: sat_add_u64(tm.soft_deadline as int, ext),
        hard_deadline: sat_add_u64(tm.hard_deadline as int, ext),
        ..tm
    }
}

/// `floor(x * num / den)` without overflow, saturated at `u64::MAX`.
fn scale(x: u64, num: u64, den: u64) -> (r: u64)
    requires
        0 < den <= 100,
        num <= 100,
    ensures
        r == scaled(x as int, num as int, den as int),
{
    let q = x / den;
    let m = x % den;
    let ghost xi = x as int;
    let ghost ni = num as int;
    let ghost di = den as int;
    let ghost qi = q as int;
    let ghost mi = m as int;
    proof {
        assert(xi == qi * di + mi) by (nonlinear_arith)
            requires
                qi == xi / di,
                mi == xi % di,
                di > 0,
        ;
        assert(xi * ni / di == qi * ni + mi * ni / di) by (nonlinear_arith)
            requires
                xi == qi * di + mi,
                0 <= mi < di,
                di > 0,
                ni >= 0,
        ;
        assert(mi * ni <= 99 * 100) by (nonlinear_arith)
            requires
                0 <= mi < di,
                di <= 100,
                ni <= 100,
                ni >= 0,
        ;
        assert(mi * ni / di <= mi * ni) by (nonlinear_arith)
            requires
                mi * ni >= 0,
                di > 0,
        ;
    }
    let low = m * num / den;
    match q.checked_mul(num) {
        Some(hi) => hi.saturating_add(low),
        None => {
            proof {
                assert(qi * ni <= xi * ni / di) by (nonlinear_arith)
                    requires
                        xi * ni / di == qi * ni + mi * ni / di,
                        mi * ni / di >= 0,
                ;
            }
            u64::MAX
        },
    }
}

pub struct TimeManager {
    pub start: Instant,
    /// Milliseconds after `start` when no new depth should begin.
    pub soft_deadline: u64,
    /// Milliseconds after `start` when the search must stop.
    pub hard_deadline: u64,
    /// True when the engine has very little time left.
    pub panic_mode: bool,
    /// Shared with the search context — set true to abort the ongoing search immediately.
    pub abort: Arc<AtomicBool>,
}

/// Time budget of a move under an incremental time control.
pub open spec fn target_ms(time_left_ms: u64, increment_ms: u64, moves_to_go: Option<u32>) -> int {
    let safe = if time_left_ms < 1 { 1 } else { time_left_ms as int };
    if safe < PANIC_MS {
        safe / 2
    } else {
        let n = match moves_to_go {
            Some(m) => m as int,
            None => 40,
        };
        safe / (n + MOVES_TO_GO_K) + scaled(increment_ms as int, 4, 5)
    }
}

/// Outside panic mode the budget, less 4/5 of the increment, is the time left
/// shared evenly over the moves to go plus 20 (40 moves when none are given):
/// that many moves at the budget fit in the time left, one more millisecond
/// each would not.
pub proof fn lemma_budget_shares_time(time_left_ms: u64, increment_ms: u64, moves_to_go: Option<u32>)
    requires
        time_left_ms >= PANIC_MS,
    ensures
        ({
            let n: int = match moves_to_go {
                Some(m) => m as int,
                None => 40,
            };
            let share = target_ms(time_left_ms, increment_ms, moves_to_go) - increment_ms * 4 / 5;
            &&& share * (n + 20) <= time_left_ms
            &&& time_left_ms < (share + 1) * (n + 20)
        }),
{
    let n: int = match moves_to_go {
        Some(m) => m as int,
        None => 40,
    };
    let d = n + 20;
    let t = time_left_ms as int;
    let ii = increment_ms as int;
    assert(ii * 4 / 5 <= u64::MAX) by (nonlinear_arith)
        requires
            0 <= ii <= u64::MAX,
    ;
    vstd::arithmetic::div_mod::lemma_fundamental_div_mod(t, d);
    let q = t / d;
    assert(q * d <= t && t < (q + 1) * d) by (nonlinear_arith)
        requires
            d > 0,
            t == d * q + t % d,
            0 <= t % d < d,
    ;
}

impl TimeManager {
    /// Standard incremental time control.
    /// `time_left_ms` should already have the UCI move-overhead subtracted.
    pub fn new(time_left_ms: u64, increment_ms: u64, moves_to_go: Option<u32>) -> (tm: TimeManager)
        ensures
            tm.panic_mode == ((if time_left_ms < 1 { 1 } else { time_left_ms as int }) < PANIC_MS),
            tm.soft_deadline == scaled(target_ms(time_left_ms, increment_ms, moves_to_go), 3, 5),
            tm.hard_deadline == scaled(target_ms(time_left_ms, increment_ms, moves_to_go), 3, 2),
    {
        let abort = new_flag();
        let start = clock::now();
        let safe_ms = if time_left_ms < 1 { 1 } else { time_left_ms };
        let panic_mode = safe_ms < PANIC_MS;
        let t_target_ms = if panic_mode {
            safe_ms / 2
        } else {
            let n: u64 = match moves_to_go {
                Some(m) => m as u64,
                None => 40,
            };
            let inc = scale(increment_ms, 4, 5);
            proof {
                let si = safe_ms as int;
                let di = (n + MOVES_TO_GO_K) as int;
                let ii = increment_ms as int;
                assert(si / di <= si / 20) by (nonlinear_arith)
                    requires
                        di >= 20,
                        si >= 0,
                ;
                assert(ii * 4 / 5 <= 0xFFFF_FFFF_FFFF_FFFFint * 4 / 5) by (nonlinear_arith)
                    requires
                        0 <= ii <= 0xFFFF_FFFF_FFFF_FFFFint,
                ;
            }
            safe_ms / (n + MOVES_TO_GO_K) + inc
        };
        let soft_ms = scale(t_target_ms, 3, 5);
        let hard_ms = scale(t_target_ms, 3, 2);
        TimeManager { start, soft_deadline: soft_ms, hard_deadline: hard_ms, panic_mode, abort }
    }

    /// Fixed move-time (`go movetime X`).
    /// `movetime_ms` should already have overhead subtracted.
    pub fn from_movetime(movetime_ms: u64) -> (tm: TimeManager)
        ensures
            tm.hard_deadline == (if movetime_ms < 1 { 1 } else { movetime_ms as int }),
            tm.soft_deadline == scaled(if movetime_ms < 1 { 1 } else { movetime_ms as int }, 19, 20),
            tm.panic_mode == (movetime_ms < PANIC_MS),
    {
        let abort = new_flag();
        let start = clock::now();
        let hard = if movetime_ms < 1 { 1 } else { movetime_ms };
        // Soft at 95% — avoids starting a new depth when time is nearly exhausted.
        let soft = scale(hard, 19, 20);
        TimeManager { start, soft_deadline: soft, hard_deadline: hard, panic_mode: movetime_ms < PANIC_MS, abort }
    }

    /// Unlimited time (fixed-depth searches, `go infinite`): a day.
    pub fn infinite() -> (tm: TimeManager)
        ensures
            tm.soft_deadline == 86_400_000,
            tm.hard_deadline == 86_400_000,
            !tm.panic_mode,
    {
        let start = clock::now();
        TimeManager {
            start,
            soft_deadline: 86_400_000,
            hard_deadline: 86_400_000,
            panic_mode: false,
            abort: new_flag(),
        }
    }

    /// True if no new depth should be started (between-depth check).
    pub fn soft_expired(&self) -> (r: bool)
        ensures
            self.soft_deadline == 0 ==> r,
    {
        clock::elapsed_ms(&self.start) >= self.soft_deadline
    }

    /// True if the search must abort immediately (inside-search check).
    pub fn hard_expired(&self) -> (r: bool)
        ensures
            self.hard_deadline == 0 ==> r,
    {
        clock::elapsed_ms(&self.start) >= self.hard_deadline
    }

    /// Extend both deadlines by `percent` % of the hard time still remaining.
    /// Called when aspiration windows fail (volatile position — needs more time).
    pub fn extend(&mut self, percent: u64)
        requires
            percent <= 100,
        ensures
            exists|now: u64| #[trigger] extended(*old(self), now, percent) == *final(self),
            final(self).soft_deadline >= old(self).soft_deadline,
            final(self).hard_deadline >= old(self).hard_deadline,
            final(self).hard_deadline - old(self).hard_deadline == final(self).soft_deadline - old(self).soft_deadline
                || final(self).hard_deadline == u64::MAX || final(self).soft_deadline == u64::MAX,
            final(self).hard_deadline <= old(self).hard_deadline + scaled(old(self).hard_deadline as int, percent as int, 100),
            final(self).panic_mode == old(self).panic_mode,
    {
        let now = clock::elapsed_ms(&self.start);
        self.extend_at(now, percent);
    }

    /// `extend` at the moment `now` milliseconds after the start: both deadlines
    /// grow, saturating, by `percent` % of the hard time left at `now`.
    pub fn extend_at(&mut self, now: u64, percent: u64)
        requires
            percent <= 100,
        ensures
            *final(self) == extended(*old(self), now, percent),
            final(self).soft_deadline >= old(self).soft_deadline,
            final(self).hard_deadline >= old(self).hard_deadline,
            final(self).hard_deadline <= old(self).hard_deadline + scaled(old(self).hard_deadline as int, percent as int, 100),
    {
        let remaining = self.hard_deadline.saturating_sub(now);
        let ext = scale(remaining, percent, 100);
        proof {
            let ri = remaining as int;
            let hi = self.hard_deadline as int;
            let pi = percent as int;
            assert(ri * pi / 100 <= hi * pi / 100) by (nonlinear_arith)
                requires
                    0 <= ri <= hi,
                    pi >= 0,
            ;
        }
        self.soft_deadline = self.soft_deadline.saturating_add(ext);
        self.hard_deadline = self.hard_deadline.saturating_add(ext);
    }

    /// Wall-clock time spent since the search started.
    pub fn elapsed(&self) -> Duration {
        clock::elapsed(&self.start)
    }
}

} // verus!
