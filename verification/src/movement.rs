//! The fixed-interval movement timer: converts a speed scalar and elapsed
//! real time into discrete one-cell movement ticks, decoupling the
//! simulation rate from the frame rate.
//!
//! Time is measured in whole microseconds so that tick accounting is exact.

use vstd::prelude::*;
use crate::map::MapData;
use crate::vec2::Vec2i;
use crate::vec2::is_unit_or_zero;
use crate::vec2::spec_step;

verus! {

/// Microseconds in one second; speeds are expressed in ticks per second.
pub const MICROS_PER_SECOND: u64 = 1_000_000;

/// An agent that can attempt a one-cell move against the map.
pub trait TryMove: Sized {
    /// The agent's movement state, for specification purposes.
    spec fn movement_of(&self) -> Movement;

    /// The agent's tile position, for specification purposes.
    spec fn pos_of(&self) -> Vec2i;

    /// The agent as it looks after halting at an obstacle.
    spec fn spec_stopped(&self) -> Self;

    /// The new position if the agent may advance one cell in its current
    /// direction, or `None` when it has no intent, is not moving, or the
    /// next cell is off the grid or a wall. The agent's own position is
    /// never changed here; at most it halts.
    fn try_move(&mut self, map_data: &MapData) -> (r: Option<Vec2i>)
        requires
            map_data.wf(),
            map_data.contains_pos(old(self).pos_of()),
            old(self).movement_of().wf(),
        ensures
            final(self).pos_of() == old(self).pos_of(),
            r matches Some(p) ==> ({
                &&& p == spec_step(old(self).pos_of(), old(self).movement_of().direction)
                &&& map_data.open_cell(p)
                &&& old(self).movement_of().direction != (Vec2i { x: 0, y: 0 })
                &&& old(self).movement_of().is_moving
                &&& *final(self) == *old(self)
            }),
            r is None ==> *final(self) == (if old(self).movement_of().direction != (Vec2i {
                x: 0,
                y: 0,
            }) && old(self).movement_of().is_moving && !map_data.open_cell(
                spec_step(old(self).pos_of(), old(self).movement_of().direction),
            ) {
                old(self).spec_stopped()
            } else {
                *old(self)
            }),
            r is None ==> (old(self).movement_of().direction == (Vec2i { x: 0, y: 0 }) || !old(
                self,
            ).movement_of().is_moving || !map_data.open_cell(
                spec_step(old(self).pos_of(), old(self).movement_of().direction),
            )),
    ;
}

/// Movement state shared by the player and the ghosts.
#[derive(Debug, Clone)]
pub struct Movement {
    /// Current direction: a unit grid vector, or zero for no intent.
    pub direction: Vec2i,
    /// Speed in ticks per second; the movement interval is `1 / speed`.
    pub speed: u32,
    /// Whether the agent is currently moving.
    pub is_moving: bool,
    /// Microseconds accumulated since the last committed tick.
    pub accumulated_time: u64,
}

/// Movement ticks due after accumulating `delta` on top of `acc`, with one
/// tick owed per whole `interval`.
pub open spec fn spec_ticks_due(acc: u64, delta: u64, interval: u64) -> int {
    (acc + delta) / interval as int
}

/// Accumulated time left over once the ticks due have been consumed.
pub open spec fn spec_residual(acc: u64, delta: u64, interval: u64) -> int {
    (acc + delta) % interval as int
}

impl Movement {
    /// Well-formedness: the speed supports a whole-microsecond interval.
    pub open spec fn wf(&self) -> bool {
        &&& 1 <= self.speed <= MICROS_PER_SECOND
        &&& is_unit_or_zero(self.direction)
    }

    /// The movement interval in microseconds.
    pub open spec fn spec_interval(&self) -> int {
        MICROS_PER_SECOND as int / self.speed as int
    }

    pub fn new(speed: u32, is_moving: bool) -> (r: Self)
        requires
            1 <= speed <= MICROS_PER_SECOND,
        ensures
            r.wf(),
            r.direction == (Vec2i { x: 0, y: 0 }),
            r.speed == speed,
            r.is_moving == is_moving,
            r.accumulated_time == 0,
    {
        Movement { direction: Vec2i { x: 0, y: 0 }, speed, is_moving, accumulated_time: 0 }
    }

    /// Sets a new direction; setting a direction implicitly starts moving.
    pub fn set_direction(&mut self, dir: Vec2i)
        requires
            is_unit_or_zero(dir),
        ensures
            *final(self) == (Movement { direction: dir, is_moving: true, ..*old(self) }),
    {
        self.direction = dir;
        self.is_moving = true;
    }

    /// Starts moving; accumulated time restarts from zero.
    pub fn start_moving(&mut self)
        ensures
            *final(self) == (Movement { is_moving: true, accumulated_time: 0, ..*old(self) }),
    {
        self.is_moving = true;
        self.accumulated_time = 0;
    }

    /// Stops moving; no partial credit is preserved.
    pub fn stop_moving(&mut self)
        ensures
            *final(self) == (Movement { is_moving: false, accumulated_time: 0, ..*old(self) }),
    {
        self.is_moving = false;
        self.accumulated_time = 0;
    }

    /// The movement interval in microseconds; faster speeds mean shorter
    /// intervals.
    pub fn get_move_interval(&self) -> (r: u64)
        requires
            self.wf(),
        ensures
            r == self.spec_interval(),
            1 <= r <= MICROS_PER_SECOND,
    {
        proof {
            assert(1 <= MICROS_PER_SECOND as int / self.speed as int <= MICROS_PER_SECOND)
                by (nonlinear_arith)
                requires
                    1 <= self.speed <= MICROS_PER_SECOND,
            ;
        }
        MICROS_PER_SECOND / (self.speed as u64)
    }

    /// Whether the accumulated time has reached the movement interval.
    pub fn can_move(&self) -> (r: bool)
        requires
            self.wf(),
        ensures
            r == (self.accumulated_time >= self.spec_interval()),
    {
        self.accumulated_time >= self.get_move_interval()
    }

    /// Advances the timer by `delta` microseconds and returns how many whole
    /// movement ticks are now due, leaving the remainder accumulated.
    ///
    /// While not moving, no time is banked: the accumulator resets and zero
    /// ticks are due.
    pub fn update(&mut self, delta: u64) -> (ticks: u64)
        requires
            old(self).wf(),
            old(self).accumulated_time + delta <= u64::MAX,
        ensures
            final(self).wf(),
            final(self).direction == old(self).direction,
            final(self).speed == old(self).speed,
            final(self).is_moving == old(self).is_moving,
            !old(self).is_moving ==> ticks == 0 && final(self).accumulated_time == 0,
            old(self).is_moving ==> {
                &&& ticks == spec_ticks_due(
                    old(self).accumulated_time,
                    delta,
                    old(self).spec_interval() as u64,
                )
                &&& final(self).accumulated_time == spec_residual(
                    old(self).accumulated_time,
                    delta,
                    old(self).spec_interval() as u64,
                )
                &&& final(self).accumulated_time < old(self).spec_interval()
            },
    {
        if !self.is_moving {
            self.accumulated_time = 0;
            return 0;
        }
        let interval = self.get_move_interval();
        let total = self.accumulated_time + delta;
        let ticks = total / interval;
        self.accumulated_time = total % interval;
        ticks
    }

    /// Resets the accumulated time.
    pub fn reset_accumulated_time(&mut self)
        ensures
            *final(self) == (Movement { accumulated_time: 0, ..*old(self) }),
    {
        self.accumulated_time = 0;
    }
}

/// With the timer freshly aligned (nothing accumulated), a delta of exactly
/// `k` whole movement intervals yields exactly `k` ticks and leaves no
/// residual time, and a delta shorter than one interval yields zero ticks
/// and leaves the delta itself accumulated.
pub proof fn lemma_timer_exact_ticks(k: u64, delta: u64, interval: u64)
    requires
        1 <= interval,
        k * interval <= u64::MAX,
    ensures
        spec_ticks_due(0, (k * interval) as u64, interval) == k,
        spec_residual(0, (k * interval) as u64, interval) == 0,
        delta < interval ==> spec_ticks_due(0, delta, interval) == 0,
        delta < interval ==> spec_residual(0, delta, interval) == delta,
{
    assert(k * interval / interval as int == k && k * interval % interval as int == 0)
        by (nonlinear_arith)
        requires
            1 <= interval,
    ;
    if delta < interval {
        assert(delta as int / interval as int == 0 && delta as int % interval as int == delta)
            by (nonlinear_arith)
            requires
                0 <= delta < interval,
        ;
    }
}

} // verus!
