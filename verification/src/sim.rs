//! Simulation state: the resource economy and the fixed-timestep clock.
//!
//! The clock accumulates elapsed wall-time in milliseconds and emits one
//! tick for every full [`FIXED_TICK_MS`] that has accumulated, carrying the
//! remainder forward. The tick count is therefore a pure function of the
//! total time fed in, no matter how that time was chunked across calls
//! (see [`lemma_ticks_independent_of_chunking`]).

use vstd::prelude::*;
use vstd::arithmetic::div_mod::lemma_fundamental_div_mod;
use vstd::arithmetic::div_mod::lemma_fundamental_div_mod_converse_div;
use vstd::arithmetic::div_mod::lemma_fundamental_div_mod_converse_mod;
use crate::tilemap::TileMap;

verus! {

/// Duration of one simulation tick, in milliseconds.
pub const FIXED_TICK_MS: u64 = 50;

/// The kinds of resource the economy tracks.
#[derive(Debug, Clone, Copy, PartialEq, Eq, Structural)]
pub enum ResourceKind {
    Gold,
    Wood,
}

/// Counters for the stockpile of each resource.
#[derive(Debug, Clone, Copy, PartialEq, Eq, Structural)]
pub struct ResourcePool {
    pub gold: u32,
    pub wood: u32,
}

impl Default for ResourcePool {
    /// An empty stockpile.
    fn default() -> (pool: Self)
        ensures
            pool.gold == 0,
            pool.wood == 0,
    {
        ResourcePool { gold: 0, wood: 0 }
    }
}

impl ResourcePool {
    /// Adds `amount` to the counter that `kind` names; the other counter is
    /// untouched.
    pub fn add(&mut self, kind: ResourceKind, amount: u32)
        requires
            kind == ResourceKind::Gold ==> old(self).gold + amount <= u32::MAX,
            kind == ResourceKind::Wood ==> old(self).wood + amount <= u32::MAX,
        ensures
            final(self).gold == old(self).gold + if kind == ResourceKind::Gold {
                amount as int
            } else {
                0int
            },
            final(self).wood == old(self).wood + if kind == ResourceKind::Wood {
                amount as int
            } else {
                0int
            },
    {
        match kind {
            ResourceKind::Gold => self.gold += amount,
            ResourceKind::Wood => self.wood += amount,
        }
    }
}

/// Tick count after feeding `delta` more milliseconds into a clock that
/// holds `ticks` ticks and `elapsed` sub-tick milliseconds.
pub open spec fn ticks_after(ticks: int, elapsed: int, delta: int) -> int {
    ticks + (elapsed + delta) / (FIXED_TICK_MS as int)
}

/// Sub-tick remainder after feeding `delta` more milliseconds into a clock
/// holding `elapsed` sub-tick milliseconds.
pub open spec fn rem_after(elapsed: int, delta: int) -> int {
    (elapsed + delta) % (FIXED_TICK_MS as int)
}

/// Sum of a sequence of time deltas.
pub open spec fn sum_of(deltas: Seq<int>) -> int
    decreases deltas.len(),
{
    if deltas.len() == 0 {
        0
    } else {
        sum_of(deltas.drop_last()) + deltas.last()
    }
}

/// Tick count after feeding each delta of `deltas`, in order, into a clock
/// holding `ticks` ticks and `elapsed` sub-tick milliseconds.
pub open spec fn ticks_after_run(ticks: int, elapsed: int, deltas: Seq<int>) -> int
    decreases deltas.len(),
{
    if deltas.len() == 0 {
        ticks
    } else {
        ticks_after(
            ticks_after_run(ticks, elapsed, deltas.drop_last()),
            rem_after_run(elapsed, deltas.drop_last()),
            deltas.last(),
        )
    }
}

/// Sub-tick remainder after feeding each delta of `deltas`, in order, into
/// a clock holding `elapsed` sub-tick milliseconds.
pub open spec fn rem_after_run(elapsed: int, deltas: Seq<int>) -> int
    decreases deltas.len(),
{
    if deltas.len() == 0 {
        elapsed
    } else {
        rem_after(rem_after_run(elapsed, deltas.drop_last()), deltas.last())
    }
}

/// Law: two successive advances emit exactly as many ticks as one advance
/// by their sum, and leave the same remainder.
pub proof fn lemma_advance_chunking(ticks: int, elapsed: int, a: int, b: int)
    requires
        0 <= ticks,
        0 <= elapsed,
        0 <= a,
        0 <= b,
    ensures
        ticks_after(ticks_after(ticks, elapsed, a), rem_after(elapsed, a), b) == ticks_after(
            ticks,
            elapsed,
            a + b,
        ),
        rem_after(rem_after(elapsed, a), b) == rem_after(elapsed, a + b),
{
    let d = FIXED_TICK_MS as int;
    let x = elapsed + a;
    lemma_fundamental_div_mod(x, d);
    lemma_fundamental_div_mod(x % d + b, d);
    assert(x + b == (x / d + (x % d + b) / d) * d + (x % d + b) % d) by {
        assert((x / d + (x % d + b) / d) * d == (x / d) * d + ((x % d + b) / d) * d)
            by (nonlinear_arith);
        assert(x % d + b == ((x % d + b) / d) * d + (x % d + b) % d) by {
            lemma_fundamental_div_mod(x % d + b, d);
        }
        assert(x == (x / d) * d + x % d) by {
            lemma_fundamental_div_mod(x, d);
        }
    }
    lemma_fundamental_div_mod_converse_div(x + b, d, x / d + (x % d + b) / d, (x % d + b) % d);
    lemma_fundamental_div_mod_converse_mod(x + b, d, x / d + (x % d + b) / d, (x % d + b) % d);
}

/// Law: the ticks a run of advances emits depend only on the total time fed
/// in. A clock that starts with `ticks` ticks and `elapsed` sub-tick
/// milliseconds ends any run of non-negative deltas summing to `T` with
/// exactly `ticks + (elapsed + T) / FIXED_TICK_MS` ticks, however `T` was
/// chunked.
pub proof fn lemma_ticks_independent_of_chunking(ticks: int, elapsed: int, deltas: Seq<int>)
    requires
        0 <= ticks,
        0 <= elapsed < FIXED_TICK_MS,
        forall|i: int| 0 <= i < deltas.len() ==> 0 <= #[trigger] deltas[i],
    ensures
        ticks_after_run(ticks, elapsed, deltas) == ticks_after(ticks, elapsed, sum_of(deltas)),
        rem_after_run(elapsed, deltas) == rem_after(elapsed, sum_of(deltas)),
    decreases deltas.len(),
{
    let d = FIXED_TICK_MS as int;
    if deltas.len() == 0 {
        assert(elapsed / d == 0 && elapsed % d == elapsed) by {
            lemma_fundamental_div_mod_converse_div(elapsed, d, 0, elapsed);
            lemma_fundamental_div_mod_converse_mod(elapsed, d, 0, elapsed);
        }
    } else {
        let front = deltas.drop_last();
        lemma_sum_of_nonneg(front);
        lemma_ticks_independent_of_chunking(ticks, elapsed, front);
        lemma_advance_chunking(ticks, elapsed, sum_of(front), deltas.last());
    }
}

/// Helper: a sum of non-negative deltas is non-negative.
proof fn lemma_sum_of_nonneg(deltas: Seq<int>)
    requires
        forall|i: int| 0 <= i < deltas.len() ==> 0 <= #[trigger] deltas[i],
    ensures
        0 <= sum_of(deltas),
    decreases deltas.len(),
{
    if deltas.len() > 0 {
        lemma_sum_of_nonneg(deltas.drop_last());
    }
}

/// The whole simulation session: the stockpile, the world map, and the
/// fixed-timestep clock (sub-tick accumulator plus tick counter).
#[derive(Debug, Clone)]
pub struct GameState {
    pub resources: ResourcePool,
    pub map: TileMap,
    /// Sub-tick milliseconds carried forward; less than [`FIXED_TICK_MS`]
    /// whenever the state is well-formed.
    pub elapsed_ms: u64,
    pub ticks: u64,
}

impl GameState {
    /// The clock never carries a full tick forward.
    pub open spec fn wf(&self) -> bool {
        self.elapsed_ms < FIXED_TICK_MS
    }

    /// A fresh session over `map`: empty stockpile, clock at zero.
    pub fn new(map: TileMap) -> (state: Self)
        ensures
            state.wf(),
            state.resources.gold == 0,
            state.resources.wood == 0,
            state.map == map,
            state.elapsed_ms == 0,
            state.ticks == 0,
    {
        Self { resources: ResourcePool::default(), map, elapsed_ms: 0, ticks: 0 }
    }

    /// Adds `amount` of `kind` to the stockpile.
    pub fn harvest(&mut self, kind: ResourceKind, amount: u32)
        requires
            kind == ResourceKind::Gold ==> old(self).resources.gold + amount <= u32::MAX,
            kind == ResourceKind::Wood ==> old(self).resources.wood + amount <= u32::MAX,
        ensures
            final(self).resources.gold == old(self).resources.gold + if kind
                == ResourceKind::Gold {
                amount as int
            } else {
                0int
            },
            final(self).resources.wood == old(self).resources.wood + if kind
                == ResourceKind::Wood {
                amount as int
            } else {
                0int
            },
            final(self).map == old(self).map,
            final(self).elapsed_ms == old(self).elapsed_ms,
            final(self).ticks == old(self).ticks,
    {
        self.resources.add(kind, amount);
    }

    /// Feeds `delta_ms` milliseconds of elapsed time into the clock: emits
    /// one tick per full [`FIXED_TICK_MS`] accumulated and carries the
    /// remainder forward.
    pub fn advance_time(&mut self, delta_ms: u64)
        requires
            old(self).elapsed_ms + delta_ms <= u64::MAX,
            old(self).ticks + (old(self).elapsed_ms + delta_ms) / (FIXED_TICK_MS as int)
                <= u64::MAX,
        ensures
            final(self).wf(),
            final(self).ticks == ticks_after(
                old(self).ticks as int,
                old(self).elapsed_ms as int,
                delta_ms as int,
            ),
            final(self).elapsed_ms == rem_after(
                old(self).elapsed_ms as int,
                delta_ms as int,
            ),
            final(self).resources == old(self).resources,
            final(self).map == old(self).map,
    {
        let ghost total: int = old(self).elapsed_ms + delta_ms;
        self.elapsed_ms += delta_ms;
        proof {
            lemma_fundamental_div_mod(total, FIXED_TICK_MS as int);
        }
        while self.elapsed_ms >= FIXED_TICK_MS
            invariant
                self.resources == old(self).resources,
                self.map == old(self).map,
                self.ticks * (FIXED_TICK_MS as int) + self.elapsed_ms == old(self).ticks * (
                FIXED_TICK_MS as int) + total,
                old(self).ticks <= self.ticks,
                self.ticks <= old(self).ticks + total / (FIXED_TICK_MS as int),
                old(self).ticks + total / (FIXED_TICK_MS as int) <= u64::MAX,
            decreases self.elapsed_ms,
        {
            proof {
                let d = FIXED_TICK_MS as int;
                let t0 = old(self).ticks as int;
                let t = self.ticks as int;
                let e = self.elapsed_ms as int;
                let q = total / d;
                assert(t < t0 + q) by {
                    lemma_fundamental_div_mod(total, d);
                    assert((t + 1 - t0) * d <= total - e + d) by (nonlinear_arith)
                        requires
                            t * d + e == t0 * d + total,
                            d > 0,
                    ;
                    if t + 1 > t0 + q {
                        assert((t + 1 - t0) * d >= (q + 1) * d) by (nonlinear_arith)
                            requires
                                t + 1 - t0 >= q + 1,
                                d > 0,
                        ;
                        assert((q + 1) * d == q * d + d) by (nonlinear_arith);
                        assert(false);
                    }
                }
            }
            self.elapsed_ms -= FIXED_TICK_MS;
            self.ticks += 1;
        }
        proof {
            let d = FIXED_TICK_MS as int;
            lemma_fundamental_div_mod_converse_div(
                total,
                d,
                self.ticks - old(self).ticks,
                self.elapsed_ms as int,
            );
            lemma_fundamental_div_mod_converse_mod(
                total,
                d,
                self.ticks - old(self).ticks,
                self.elapsed_ms as int,
            );
        }
    }
}

} // verus!
