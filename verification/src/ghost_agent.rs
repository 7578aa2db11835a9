//! The ghost behavior state machine: modes, timers, per-archetype
//! targeting, and intersection-aware direction choice.

use vstd::prelude::*;
use crate::map::MapData;
use crate::map::check_position;
use crate::map::MAX_MAP_DIM;
use crate::movement::Movement;
use crate::movement::TryMove;
use crate::pathfind::find_path;
use crate::pathfind::valid_path;
use crate::pathfind::adjacent;
use crate::rng::rng_below;
use crate::vec2::Vec2i;
use crate::vec2::is_unit_dir;
use crate::vec2::is_unit_or_zero;
use crate::vec2::spec_dist_sq;
use crate::vec2::spec_manhattan;
use crate::vec2::spec_neg;
use crate::vec2::spec_step;

verus! {

/// The ghost's movement state; exactly one is active at a time.
#[derive(Debug, Clone, Copy, PartialEq, Eq, Structural)]
pub enum GhostMode {
    /// Normal pursuit of the player.
    Chase,
    /// Patrolling a fixed home corner.
    Scatter,
    /// Vulnerable and erratic after a power item.
    Frightened,
    /// Returning to the spawn cell after being caught.
    ReturnToBase,
}

/// The four fixed archetypes, each with its own targeting heuristic and
/// house-exit delay.
#[derive(Debug, Clone, Copy, PartialEq, Eq, Structural)]
pub enum GhostType {
    /// Direct pursuer: targets the player's cell.
    Blinky,
    /// Interceptor: targets four cells ahead of the player.
    Pinky,
    /// Flanker: doubles the lead agent's offset past the player.
    Inky,
    /// Opportunist: retreats to a corner when close, else pursues.
    Clyde,
}

/// Nominal ghost speed in movement ticks per second.
pub const GHOST_SPEED: u32 = 4;

/// Speed while Frightened: half the nominal speed.
pub const FRIGHTENED_SPEED: u32 = 2;

/// Speed while returning to base: double the nominal speed.
pub const RETURN_SPEED: u32 = 8;

/// Microsecond lengths of the alternating Scatter/Chase phases.
pub const SCATTER_LONG: u64 = 7_000_000;

pub const SCATTER_SHORT: u64 = 5_000_000;

pub const CHASE_PHASE: u64 = 20_000_000;

/// Aggregate scheduled time after which Chase becomes permanent:
/// 7 + 20 + 7 + 20 + 5 + 20 + 5 seconds.
pub const PERMANENT_CHASE_AT: u64 = 84_000_000;

/// The scheduled duration of the Scatter/Chase phase that starts once
/// `elapsed` microseconds of scheduled time have accumulated: the fixed
/// sequence 7, 20, 7, 20, 5, 20, 5 seconds, then Chase forever.
pub open spec fn spec_schedule_duration(elapsed: int) -> Option<u64> {
    if elapsed < 7_000_000 {
        Some(SCATTER_LONG)
    } else if elapsed < 27_000_000 {
        Some(CHASE_PHASE)
    } else if elapsed < 34_000_000 {
        Some(SCATTER_LONG)
    } else if elapsed < 54_000_000 {
        Some(CHASE_PHASE)
    } else if elapsed < 59_000_000 {
        Some(SCATTER_SHORT)
    } else if elapsed < 79_000_000 {
        Some(CHASE_PHASE)
    } else if elapsed < 84_000_000 {
        Some(SCATTER_SHORT)
    } else {
        None
    }
}

/// The mode of the phase that starts at aggregate `elapsed`: Scatter and
/// Chase alternate along the fixed sequence until permanent Chase.
pub open spec fn spec_schedule_mode(elapsed: int) -> GhostMode {
    if elapsed < 7_000_000 {
        GhostMode::Scatter
    } else if elapsed < 27_000_000 {
        GhostMode::Chase
    } else if elapsed < 34_000_000 {
        GhostMode::Scatter
    } else if elapsed < 54_000_000 {
        GhostMode::Chase
    } else if elapsed < 59_000_000 {
        GhostMode::Scatter
    } else if elapsed < 79_000_000 {
        GhostMode::Chase
    } else if elapsed < 84_000_000 {
        GhostMode::Scatter
    } else {
        GhostMode::Chase
    }
}

/// The Chase duration used when the schedule resumes from the Chase branch
/// (after Frightened ends or the ghost reaches its spawn): a full Chase
/// phase, or unbounded once the schedule has run out.
pub open spec fn spec_resume_chase_duration(elapsed: int) -> Option<u64> {
    if elapsed >= PERMANENT_CHASE_AT {
        None
    } else {
        Some(CHASE_PHASE)
    }
}

/// An autonomous chaser agent.
#[derive(Debug)]
pub struct GhostAgent {
    /// Current map tile position.
    pub tile_pos: Vec2i,
    /// Archetype.
    pub ghost_type: GhostType,
    /// Fixed spawn ("home") cell.
    pub spawn_pos: Vec2i,
    /// Last computed destination cell.
    pub target_pos: Vec2i,
    /// Active mode.
    pub mode: GhostMode,
    /// Microseconds of Frightened time remaining.
    pub frightened_time: u64,
    /// Aggregate scheduled Scatter/Chase time completed so far.
    pub schedule_elapsed: u64,
    /// True until the house-exit delay has elapsed.
    pub in_house: bool,
    /// Microseconds of house-exit delay remaining.
    pub house_delay: u64,
    /// Movement state.
    pub movement: Movement,
    /// Whether the last update found the ghost at a junction.
    pub at_intersection: bool,
    /// Last committed movement direction (immediate reversal is forbidden).
    pub last_move_dir: Vec2i,
    /// Microseconds elapsed in the current Scatter/Chase phase.
    pub mode_switch_timer: u64,
    /// Scheduled length of the current phase; `None` once Chase is
    /// permanent.
    pub current_mode_duration: Option<u64>,
    /// Cached path toward the current target, if any; an optimization
    /// only, invalidated when the target or mode changes.
    pub path_cache: Option<Vec<Vec2i>>,
}

impl GhostAgent {
    /// Well-formedness: the timer is usable and the speed always matches
    /// the mode (halved when Frightened, doubled when returning, nominal
    /// otherwise).
    pub open spec fn wf(&self) -> bool {
        &&& self.movement.wf()
        &&& is_unit_or_zero(self.last_move_dir)
        &&& self.mode is Frightened ==> self.movement.speed == FRIGHTENED_SPEED
        &&& self.mode is ReturnToBase ==> self.movement.speed == RETURN_SPEED
        &&& (self.mode is Scatter || self.mode is Chase) ==> self.movement.speed == GHOST_SPEED
        &&& 0 <= self.spawn_pos.x < MAX_MAP_DIM as int
        &&& 0 <= self.spawn_pos.y < MAX_MAP_DIM as int
        &&& crate::vec2::abs_i(self.target_pos.x as int) <= MAX_MAP_DIM as int + 4
        &&& crate::vec2::abs_i(self.target_pos.y as int) <= MAX_MAP_DIM as int + 4
        &&& self.path_cache matches Some(pc) ==> forall|i: int|
            0 <= i < pc@.len() ==> 0 <= (#[trigger] pc@[i]).x < MAX_MAP_DIM as int && 0
                <= pc@[i].y < MAX_MAP_DIM as int
    }

    /// The archetype's house-exit delay: 0, 5, 10 or 15 seconds.
    pub open spec fn spec_house_delay(ghost_type: GhostType) -> u64 {
        match ghost_type {
            GhostType::Blinky => 0,
            GhostType::Pinky => 5_000_000,
            GhostType::Inky => 10_000_000,
            GhostType::Clyde => 15_000_000,
        }
    }

    /// A freshly spawned ghost: housed, in Scatter, at nominal speed, with
    /// the first scheduled phase ahead of it.
    pub fn new(x: i32, y: i32, ghost_type: GhostType) -> (r: Self)
        requires
            0 <= x < MAX_MAP_DIM,
            0 <= y < MAX_MAP_DIM,
        ensures
            r.wf(),
            r.tile_pos == (Vec2i { x, y }),
            r.spawn_pos == (Vec2i { x, y }),
            r.target_pos == (Vec2i { x, y }),
            r.ghost_type == ghost_type,
            r.mode is Scatter,
            r.frightened_time == 0,
            r.schedule_elapsed == 0,
            r.in_house,
            r.house_delay == Self::spec_house_delay(ghost_type),
            r.movement.speed == GHOST_SPEED,
            r.movement.is_moving,
            r.movement.accumulated_time == 0,
            r.movement.direction == (Vec2i { x: 0, y: 0 }),
            !r.at_intersection,
            r.last_move_dir == (Vec2i { x: 0, y: 0 }),
            r.mode_switch_timer == 0,
            r.current_mode_duration == Some(SCATTER_LONG),
            r.path_cache is None,
    {
        let house_delay: u64 = match ghost_type {
            GhostType::Blinky => 0,
            GhostType::Pinky => 5_000_000,
            GhostType::Inky => 10_000_000,
            GhostType::Clyde => 15_000_000,
        };
        GhostAgent {
            tile_pos: Vec2i { x, y },
            ghost_type,
            spawn_pos: Vec2i { x, y },
            target_pos: Vec2i { x, y },
            mode: GhostMode::Scatter,
            frightened_time: 0,
            schedule_elapsed: 0,
            in_house: true,
            house_delay,
            movement: Movement::new(GHOST_SPEED, true),
            at_intersection: false,
            last_move_dir: Vec2i { x: 0, y: 0 },
            mode_switch_timer: 0,
            current_mode_duration: Some(SCATTER_LONG),
            path_cache: None,
        }
    }

    /// Enters Frightened mode for `duration` microseconds at half speed,
    /// unless the ghost is returning to base; re-triggering while already
    /// Frightened refreshes the timer without changing mode.
    pub fn set_frightened(&mut self, duration: u64)
        requires
            old(self).wf(),
        ensures
            final(self).wf(),
            old(self).mode is ReturnToBase ==> {
                &&& final(self).mode is ReturnToBase
                &&& final(self).frightened_time == old(self).frightened_time
                &&& final(self).movement == old(self).movement
            },
            !(old(self).mode is ReturnToBase) ==> {
                &&& final(self).mode is Frightened
                &&& final(self).frightened_time == duration
                &&& final(self).movement.speed == FRIGHTENED_SPEED
                &&& final(self).path_cache is None
            },
            old(self).mode is ReturnToBase ==> final(self).path_cache == old(self).path_cache,
            final(self).tile_pos == old(self).tile_pos,
            final(self).spawn_pos == old(self).spawn_pos,
            final(self).target_pos == old(self).target_pos,
            final(self).ghost_type == old(self).ghost_type,
            final(self).schedule_elapsed == old(self).schedule_elapsed,
            final(self).in_house == old(self).in_house,
            final(self).house_delay == old(self).house_delay,
            final(self).at_intersection == old(self).at_intersection,
            final(self).last_move_dir == old(self).last_move_dir,
            final(self).mode_switch_timer == old(self).mode_switch_timer,
            final(self).current_mode_duration == old(self).current_mode_duration,
            final(self).movement.direction == old(self).movement.direction,
            final(self).movement.is_moving == old(self).movement.is_moving,
            final(self).movement.accumulated_time == old(self).movement.accumulated_time,
    {
        if !matches!(self.mode, GhostMode::ReturnToBase) {
            self.mode = GhostMode::Frightened;
            self.frightened_time = duration;
            // Half speed while Frightened; the direction is kept.
            self.movement.speed = FRIGHTENED_SPEED;
            self.path_cache = None;
        }
    }

    /// Caught while vulnerable: head home at double speed.
    pub fn eaten(&mut self)
        requires
            old(self).wf(),
        ensures
            final(self).wf(),
            final(self).mode is ReturnToBase,
            final(self).movement.speed == RETURN_SPEED,
            final(self).path_cache is None,
            final(self).tile_pos == old(self).tile_pos,
            final(self).spawn_pos == old(self).spawn_pos,
            final(self).target_pos == old(self).target_pos,
            final(self).ghost_type == old(self).ghost_type,
            final(self).frightened_time == old(self).frightened_time,
            final(self).schedule_elapsed == old(self).schedule_elapsed,
            final(self).in_house == old(self).in_house,
            final(self).house_delay == old(self).house_delay,
            final(self).at_intersection == old(self).at_intersection,
            final(self).last_move_dir == old(self).last_move_dir,
            final(self).mode_switch_timer == old(self).mode_switch_timer,
            final(self).current_mode_duration == old(self).current_mode_duration,
            final(self).movement.direction == old(self).movement.direction,
            final(self).movement.is_moving == old(self).movement.is_moving,
            final(self).movement.accumulated_time == old(self).movement.accumulated_time,
    {
        self.mode = GhostMode::ReturnToBase;
        // The position is not reset: the ghost walks home on its own.
        self.movement.speed = RETURN_SPEED;
        self.path_cache = None;
    }

    /// Leaves the house once the exit delay has run out: mode is forced to
    /// Scatter at nominal speed with a reset schedule timer.
    pub fn try_leave_house(&mut self)
        requires
            old(self).wf(),
        ensures
            final(self).wf(),
            old(self).in_house && old(self).house_delay == 0 ==> {
                &&& !final(self).in_house
                &&& final(self).mode is Scatter
                &&& final(self).movement.speed == GHOST_SPEED
                &&& final(self).mode_switch_timer == 0
                &&& final(self).current_mode_duration == Some(SCATTER_LONG)
            },
            !(old(self).in_house && old(self).house_delay == 0) ==> *final(self) == *old(self),
            final(self).tile_pos == old(self).tile_pos,
            final(self).spawn_pos == old(self).spawn_pos,
            final(self).ghost_type == old(self).ghost_type,
            final(self).target_pos == old(self).target_pos,
            final(self).frightened_time == old(self).frightened_time,
            final(self).schedule_elapsed == old(self).schedule_elapsed,
            final(self).house_delay == old(self).house_delay,
            final(self).at_intersection == old(self).at_intersection,
            final(self).last_move_dir == old(self).last_move_dir,
            final(self).path_cache == old(self).path_cache,
            final(self).movement.direction == old(self).movement.direction,
            final(self).movement.is_moving == old(self).movement.is_moving,
            final(self).movement.accumulated_time == old(self).movement.accumulated_time,
    {
        if self.in_house && self.house_delay == 0 {
            self.in_house = false;
            self.mode = GhostMode::Scatter;
            self.movement.speed = GHOST_SPEED;
            self.mode_switch_timer = 0;
            self.current_mode_duration = Some(SCATTER_LONG);
        }
    }
}

/// Whether direction `d` may be taken from the ghost's cell: immediate
/// reversal is forbidden outside Frightened mode (unless explicitly
/// allowed), and the next cell must be open.
pub open spec fn spec_dir_allowed(g: GhostAgent, map: &MapData, allow_reverse: bool, d: Vec2i) -> bool {
    &&& (allow_reverse || g.mode is Frightened || d != spec_neg(g.last_move_dir))
    &&& map.open_cell(spec_step(g.tile_pos, d))
}

/// A singleton sequence when the condition holds, else empty.
pub open spec fn seq_if(c: bool, d: Vec2i) -> Seq<Vec2i> {
    if c {
        seq![d]
    } else {
        Seq::empty()
    }
}

/// The legal movement directions from the ghost's cell, in the fixed
/// probe order right, down, left, up.
pub open spec fn spec_possible_dirs(g: GhostAgent, map: &MapData, allow_reverse: bool) -> Seq<
    Vec2i,
> {
    seq_if(spec_dir_allowed(g, map, allow_reverse, Vec2i { x: 1, y: 0 }), Vec2i { x: 1, y: 0 })
        + seq_if(spec_dir_allowed(g, map, allow_reverse, Vec2i { x: 0, y: 1 }), Vec2i { x: 0, y: 1 })
        + seq_if(
        spec_dir_allowed(g, map, allow_reverse, Vec2i { x: -1i32, y: 0 }),
        Vec2i { x: -1i32, y: 0 },
    ) + seq_if(
        spec_dir_allowed(g, map, allow_reverse, Vec2i { x: 0, y: -1i32 }),
        Vec2i { x: 0, y: -1i32 },
    )
}

/// The legal-direction sequence holds exactly the unit directions that are
/// allowed, and nothing else.
pub proof fn lemma_possible_dirs_contains(
    g: GhostAgent,
    map: &MapData,
    allow_reverse: bool,
    d: Vec2i,
)
    ensures
        spec_possible_dirs(g, map, allow_reverse).contains(d) <==> (is_unit_dir(d)
            && spec_dir_allowed(g, map, allow_reverse, d)),
{
    let s = spec_possible_dirs(g, map, allow_reverse);
    let r = Vec2i { x: 1, y: 0 };
    let dn = Vec2i { x: 0, y: 1 };
    let l = Vec2i { x: -1i32, y: 0 };
    let u = Vec2i { x: 0, y: -1i32 };
    let p1 = seq_if(spec_dir_allowed(g, map, allow_reverse, r), r);
    let p2 = seq_if(spec_dir_allowed(g, map, allow_reverse, dn), dn);
    let p3 = seq_if(spec_dir_allowed(g, map, allow_reverse, l), l);
    let p4 = seq_if(spec_dir_allowed(g, map, allow_reverse, u), u);
    if is_unit_dir(d) && spec_dir_allowed(g, map, allow_reverse, d) {
        if d == r {
            assert(s[0] == r);
        } else if d == dn {
            assert(s[p1.len() as int] == dn);
        } else if d == l {
            assert(s[(p1.len() + p2.len()) as int] == l);
        } else {
            assert(s[(p1.len() + p2.len() + p3.len()) as int] == u);
        }
        assert(s.contains(d));
    }
    if s.contains(d) {
        let i = choose|i: int| 0 <= i < s.len() && s[i] == d;
        if i < p1.len() {
            assert(d == r);
        } else if i < (p1.len() + p2.len()) as int {
            assert(d == dn);
        } else if i < (p1.len() + p2.len() + p3.len()) as int {
            assert(d == l);
        } else {
            assert(d == u);
        }
    }
}

impl GhostAgent {
    /// Whether direction `d` may be taken right now.
    fn dir_ok(&self, map_data: &MapData, allow_reverse: bool, d: Vec2i) -> (r: bool)
        requires
            self.wf(),
            map_data.wf(),
            map_data.contains_pos(self.tile_pos),
            is_unit_dir(d),
        ensures
            r == spec_dir_allowed(*self, map_data, allow_reverse, d),
    {
        if !allow_reverse && !matches!(self.mode, GhostMode::Frightened) && d
            == self.last_move_dir.neg() {
            return false;
        }
        let new_pos = self.tile_pos.plus(d);
        check_position(new_pos.x, new_pos.y, map_data.width, map_data.height) && !map_data.is_wall(
            new_pos.x as usize,
            new_pos.y as usize,
        )
    }

    /// The movement directions currently open to the ghost, probed in the
    /// fixed order right, down, left, up; outside Frightened mode the
    /// immediate reversal of the last direction is excluded unless
    /// `allow_reverse` is set.
    pub fn get_possible_direction(&self, map_data: &MapData, allow_reverse: bool) -> (r: Vec<
        Vec2i,
    >)
        requires
            self.wf(),
            map_data.wf(),
            map_data.contains_pos(self.tile_pos),
        ensures
            r@ == spec_possible_dirs(*self, map_data, allow_reverse),
            forall|i: int|
                0 <= i < r@.len() ==> is_unit_dir(#[trigger] r@[i]) && spec_dir_allowed(
                    *self,
                    map_data,
                    allow_reverse,
                    r@[i],
                ),
    {
        let mut dirs: Vec<Vec2i> = Vec::new();
        let right = Vec2i { x: 1, y: 0 };
        let down = Vec2i { x: 0, y: 1 };
        let left = Vec2i { x: -1, y: 0 };
        let up = Vec2i { x: 0, y: -1 };
        if self.dir_ok(map_data, allow_reverse, right) {
            dirs.push(right);
        }
        if self.dir_ok(map_data, allow_reverse, down) {
            dirs.push(down);
        }
        if self.dir_ok(map_data, allow_reverse, left) {
            dirs.push(left);
        }
        if self.dir_ok(map_data, allow_reverse, up) {
            dirs.push(up);
        }
        proof {
            assert(dirs@ =~= spec_possible_dirs(*self, map_data, allow_reverse));
            assert forall|i: int| 0 <= i < dirs@.len() implies is_unit_dir(#[trigger] dirs@[i])
                && spec_dir_allowed(*self, map_data, allow_reverse, dirs@[i]) by {
                lemma_possible_dirs_contains(*self, map_data, allow_reverse, dirs@[i]);
                assert(dirs@.contains(dirs@[i]));
            }
        }
        dirs
    }

    /// Whether the ghost stands at a junction: more than two exits, or
    /// exactly two exits that do not include the reverse of the last
    /// direction (a turning corner rather than a straight corridor).
    pub fn check_intersection(&self, map_data: &MapData) -> (r: bool)
        requires
            self.wf(),
            map_data.wf(),
            map_data.contains_pos(self.tile_pos),
        ensures
            r == spec_at_junction(*self, map_data),
    {
        let possible_dirs = self.get_possible_direction(map_data, true);
        possible_dirs.len() > 2 || (possible_dirs.len() == 2 && !contains_dir(
            &possible_dirs,
            self.last_move_dir.neg(),
        ))
    }

    /// Whether continuing straight ahead would leave the grid or hit a
    /// wall.
    pub fn will_hit_wall(&self, map_data: &MapData) -> (r: bool)
        requires
            self.wf(),
            map_data.wf(),
            map_data.contains_pos(self.tile_pos),
        ensures
            r == (self.movement.direction != (Vec2i { x: 0, y: 0 }) && !map_data.open_cell(
                spec_step(self.tile_pos, self.movement.direction),
            )),
    {
        if self.movement.direction == Vec2i::zero() {
            return false;
        }
        let next_pos = self.tile_pos.plus(self.movement.direction);
        !(check_position(next_pos.x, next_pos.y, map_data.width, map_data.height)
            && !map_data.is_wall(next_pos.x as usize, next_pos.y as usize))
    }
}

/// Whether the direction list contains `d`.
pub fn contains_dir(dirs: &Vec<Vec2i>, d: Vec2i) -> (r: bool)
    ensures
        r == dirs@.contains(d),
{
    let mut i: usize = 0;
    while i < dirs.len()
        invariant
            i <= dirs@.len(),
            forall|j: int| 0 <= j < i ==> dirs@[j] != d,
        decreases dirs@.len() - i,
    {
        if dirs[i] == d {
            return true;
        }
        i = i + 1;
    }
    false
}

/// `v` clamped to the inclusive range `[lo, hi]`.
pub open spec fn spec_clamp(v: int, lo: int, hi: int) -> int {
    if v < lo {
        lo
    } else if v > hi {
        hi
    } else {
        v
    }
}

/// The cell `k` unit steps from `a` in direction `d`.
pub open spec fn spec_offset(a: Vec2i, d: Vec2i, k: int) -> Vec2i {
    Vec2i { x: (a.x + k * d.x) as i32, y: (a.y + k * d.y) as i32 }
}

/// The archetype's fixed Scatter-mode home corner, inset from the map
/// edge to remain reachable.
pub open spec fn spec_scatter_corner(ghost_type: GhostType, map: &MapData) -> Vec2i {
    match ghost_type {
        GhostType::Blinky => Vec2i {
            x: (map.width - 2) as i32,
            y: (map.height - 2) as i32,
        },
        GhostType::Pinky => Vec2i { x: 1, y: (map.height - 2) as i32 },
        GhostType::Inky => Vec2i { x: (map.width - 2) as i32, y: 1 },
        GhostType::Clyde => Vec2i { x: 1, y: 1 },
    }
}

/// The archetype's Chase-mode target, clamped to the map bounds where the
/// raw heuristic can leave the grid.
pub open spec fn spec_chase_target(
    ghost_type: GhostType,
    own_pos: Vec2i,
    player_pos: Vec2i,
    player_dir: Vec2i,
    blinky_pos: Vec2i,
    map: &MapData,
) -> Vec2i {
    match ghost_type {
        GhostType::Blinky => player_pos,
        GhostType::Pinky => Vec2i {
            x: spec_clamp(player_pos.x + 4 * player_dir.x, 0, map.width - 1) as i32,
            y: spec_clamp(player_pos.y + 4 * player_dir.y, 0, map.height - 1) as i32,
        },
        GhostType::Inky => {
            let ahead_x = player_pos.x + 2 * player_dir.x;
            let ahead_y = player_pos.y + 2 * player_dir.y;
            let target_x = ahead_x + 2 * (ahead_x - blinky_pos.x);
            let target_y = ahead_y + 2 * (ahead_y - blinky_pos.y);
            Vec2i {
                x: spec_clamp(target_x, 0, map.width - 1) as i32,
                y: spec_clamp(target_y, 0, map.height - 1) as i32,
            }
        },
        GhostType::Clyde => {
            if spec_dist_sq(own_pos, player_pos) < 64 {
                Vec2i { x: 1, y: 1 }
            } else {
                player_pos
            }
        },
    }
}

/// `v` clamped to `[lo, hi]`, as executable code.
fn clamp_i32(v: i32, lo: i32, hi: i32) -> (r: i32)
    requires
        lo <= hi,
    ensures
        r == spec_clamp(v as int, lo as int, hi as int),
{
    if v < lo {
        lo
    } else if v > hi {
        hi
    } else {
        v
    }
}

impl GhostAgent {
    /// Computes the destination cell for the current mode: the spawn cell
    /// when returning to base, the archetype's home corner in Scatter, the
    /// archetype's pursuit heuristic in Chase, and a randomly chosen
    /// non-reversing step (scaled out to four cells) in Frightened.
    pub fn calc_target(
        &self,
        player_pos: Vec2i,
        player_dir: Vec2i,
        blinky_pos: Vec2i,
        map_data: &MapData,
        rng: &mut rand::rngs::StdRng,
    ) -> (r: Vec2i)
        requires
            self.wf(),
            map_data.wf(),
            map_data.contains_pos(self.tile_pos),
            map_data.contains_pos(player_pos),
            map_data.contains_pos(blinky_pos),
            is_unit_or_zero(player_dir),
        ensures
            self.mode is ReturnToBase ==> r == self.spawn_pos,
            self.mode is Scatter ==> r == spec_scatter_corner(self.ghost_type, map_data),
            self.mode is Chase ==> r == spec_chase_target(
                self.ghost_type,
                self.tile_pos,
                player_pos,
                player_dir,
                blinky_pos,
                map_data,
            ),
            crate::vec2::abs_i(r.x as int) <= MAX_MAP_DIM as int + 4,
            crate::vec2::abs_i(r.y as int) <= MAX_MAP_DIM as int + 4,
            self.mode is Frightened ==> ({
                let dirs = spec_possible_dirs(*self, map_data, true);
                &&& (dirs.len() == 0 ==> r == player_pos)
                &&& (dirs.len() > 0 ==> exists|d: Vec2i|
                    #[trigger] dirs.contains(d) && r == spec_offset(self.tile_pos, d, 4))
                &&& ((exists|d2: Vec2i|
                    #[trigger] dirs.contains(d2) && d2 != spec_neg(self.last_move_dir))
                    ==> exists|d: Vec2i|
                    #[trigger] dirs.contains(d) && d != spec_neg(self.last_move_dir) && r
                        == spec_offset(self.tile_pos, d, 4))
            }),
    {
        match self.mode {
            GhostMode::ReturnToBase => self.spawn_pos,
            GhostMode::Frightened => {
                // Random movement, but never an immediate reversal while
                // another legal direction exists.
                let possible_dirs = self.get_possible_direction(map_data, true);
                if possible_dirs.len() == 0 {
                    return player_pos;
                }
                let rev = self.last_move_dir.neg();
                let mut non_reverse_dirs: Vec<Vec2i> = Vec::new();
                let mut i: usize = 0;
                while i < possible_dirs.len()
                    invariant
                        i <= possible_dirs@.len(),
                        forall|k: int|
                            0 <= k < non_reverse_dirs@.len() ==> #[trigger] non_reverse_dirs@[k]
                                != spec_neg(self.last_move_dir) && possible_dirs@.contains(
                                non_reverse_dirs@[k],
                            ),
                        (exists|j: int| 0 <= j < i && #[trigger] possible_dirs@[j] != spec_neg(
                            self.last_move_dir,
                        )) <==> non_reverse_dirs@.len() > 0,
                        self.wf(),
                        is_unit_or_zero(self.last_move_dir),
                        rev == spec_neg(self.last_move_dir),
                    decreases possible_dirs@.len() - i,
                {
                    let d = possible_dirs[i];
                    let ghost old_nr = non_reverse_dirs@;
                    if d != rev {
                        non_reverse_dirs.push(d);
                        proof {
                            assert(possible_dirs@.contains(d)) by {
                                assert(possible_dirs@[i as int] == d);
                            }
                            assert forall|k: int|
                                0 <= k < non_reverse_dirs@.len()
                                    implies #[trigger] non_reverse_dirs@[k] != spec_neg(
                                self.last_move_dir,
                            ) && possible_dirs@.contains(non_reverse_dirs@[k]) by {
                                if k < old_nr.len() {
                                    assert(non_reverse_dirs@[k] == old_nr[k]);
                                } else {
                                    assert(non_reverse_dirs@[k] == d);
                                }
                            }
                            assert(possible_dirs@[i as int] != spec_neg(self.last_move_dir));
                        }
                    } else {
                        proof {
                            assert(possible_dirs@[i as int] == spec_neg(self.last_move_dir));
                            if exists|j: int|
                                0 <= j < i + 1 && #[trigger] possible_dirs@[j] != spec_neg(
                                    self.last_move_dir,
                                ) {
                                let j = choose|j: int|
                                    0 <= j < i + 1 && #[trigger] possible_dirs@[j] != spec_neg(
                                        self.last_move_dir,
                                    );
                                assert(j < i);
                            }
                        }
                    }
                    i = i + 1;
                }
                if non_reverse_dirs.len() > 0 {
                    let random_idx = rng_below(rng, non_reverse_dirs.len());
                    let d = non_reverse_dirs[random_idx];
                    let r = self.tile_pos.plus(d.times(4));
                    proof {
                        let dirs = spec_possible_dirs(*self, map_data, true);
                        assert(dirs.contains(d) && d != spec_neg(self.last_move_dir) && r
                            == spec_offset(self.tile_pos, d, 4));
                    }
                    r
                } else {
                    // Only the reversal remains.
                    let random_idx = rng_below(rng, possible_dirs.len());
                    let d = possible_dirs[random_idx];
                    let r = self.tile_pos.plus(d.times(4));
                    proof {
                        let dirs = spec_possible_dirs(*self, map_data, true);
                        assert(dirs.contains(d)) by {
                            assert(dirs[random_idx as int] == d);
                        }
                        assert(r == spec_offset(self.tile_pos, d, 4));
                        assert forall|d2: Vec2i|
                            #[trigger] dirs.contains(d2) implies d2 == spec_neg(
                            self.last_move_dir,
                        ) by {
                            let j = choose|j: int| 0 <= j < dirs.len() && dirs[j] == d2;
                        }
                    }
                    r
                }
            },
            GhostMode::Scatter => {
                // Each archetype patrols its own corner.
                let w1 = map_data.width as i32;
                let h1 = map_data.height as i32;
                match self.ghost_type {
                    GhostType::Blinky => Vec2i { x: w1 - 2, y: h1 - 2 },
                    GhostType::Pinky => Vec2i { x: 1, y: h1 - 2 },
                    GhostType::Inky => Vec2i { x: w1 - 2, y: 1 },
                    GhostType::Clyde => Vec2i { x: 1, y: 1 },
                }
            },
            GhostMode::Chase => {
                match self.ghost_type {
                    GhostType::Blinky => player_pos,
                    GhostType::Pinky => {
                        // Aim four cells ahead of the player, kept on the
                        // grid.
                        let target = player_pos.plus(player_dir.times(4));
                        Vec2i {
                            x: clamp_i32(target.x, 0, map_data.width as i32 - 1),
                            y: clamp_i32(target.y, 0, map_data.height as i32 - 1),
                        }
                    },
                    GhostType::Inky => {
                        // Double the lead agent's offset past the cell two
                        // ahead of the player.
                        let player_ahead = player_pos.plus(player_dir.times(2));
                        let blinky_to_player_ahead = player_ahead.minus(blinky_pos);
                        let target = player_ahead.plus(blinky_to_player_ahead.times(2));
                        Vec2i {
                            x: clamp_i32(target.x, 0, map_data.width as i32 - 1),
                            y: clamp_i32(target.y, 0, map_data.height as i32 - 1),
                        }
                    },
                    GhostType::Clyde => {
                        // Retreat to the corner when close, else pursue.
                        let distance_sq = self.tile_pos.dist_sq(player_pos);
                        if distance_sq < 64 {
                            Vec2i { x: 1, y: 1 }
                        } else {
                            player_pos
                        }
                    },
                }
            },
        }
    }
}

/// The unit step leading from `a` to the adjacent cell `b`.
pub open spec fn spec_dir_to(a: Vec2i, b: Vec2i) -> Vec2i {
    Vec2i { x: (b.x - a.x) as i32, y: (b.y - a.y) as i32 }
}

/// `k` names the first entry of `scores` with the minimal value.
pub open spec fn is_first_min(scores: Seq<int>, k: int) -> bool {
    &&& 0 <= k < scores.len()
    &&& forall|j: int| 0 <= j < scores.len() ==> scores[k] <= #[trigger] scores[j]
    &&& forall|j: int| 0 <= j < k ==> #[trigger] scores[j] > scores[k]
}

/// Squared Euclidean distance to `target` after one step in each direction.
pub open spec fn dist_sq_scores(dirs: Seq<Vec2i>, base: Vec2i, target: Vec2i) -> Seq<int> {
    Seq::new(dirs.len(), |i: int| spec_dist_sq(spec_step(base, dirs[i]), target))
}

/// Manhattan distance to `target` after one step in each direction.
pub open spec fn manhattan_scores(dirs: Seq<Vec2i>, base: Vec2i, target: Vec2i) -> Seq<int> {
    Seq::new(dirs.len(), |i: int| spec_manhattan(spec_step(base, dirs[i]), target))
}

/// `d` is the first step of some shortest wall-free walk from `a` to
/// `b`.
pub open spec fn spec_shortest_step(map: &MapData, a: Vec2i, b: Vec2i, d: Vec2i) -> bool {
    exists|p: Seq<Vec2i>|
        {
            &&& #[trigger] valid_path(map, a, b, p)
            &&& (forall|q: Seq<Vec2i>| valid_path(map, a, b, q) ==> q.len() >= p.len())
            &&& p.len() > 1
            &&& d == spec_dir_to(a, p[1])
        }
}

/// The usable step of a cached path: the direction to its second cell,
/// when that direction is among the legal ones.
pub open spec fn spec_path_step(pc: Option<Vec<Vec2i>>, tile: Vec2i, dirs: Seq<Vec2i>) -> Option<
    Vec2i,
> {
    match pc {
        Some(p) => if p@.len() > 1 && dirs.contains(spec_dir_to(tile, p@[1])) {
            Some(spec_dir_to(tile, p@[1]))
        } else {
            None
        },
        None => None,
    }
}

/// Two ghosts that agree on everything but the cached path.
pub open spec fn eq_but_cache(a: GhostAgent, b: GhostAgent) -> bool {
    &&& a.tile_pos == b.tile_pos
    &&& a.ghost_type == b.ghost_type
    &&& a.spawn_pos == b.spawn_pos
    &&& a.target_pos == b.target_pos
    &&& a.mode == b.mode
    &&& a.frightened_time == b.frightened_time
    &&& a.schedule_elapsed == b.schedule_elapsed
    &&& a.in_house == b.in_house
    &&& a.house_delay == b.house_delay
    &&& a.movement == b.movement
    &&& a.at_intersection == b.at_intersection
    &&& a.last_move_dir == b.last_move_dir
    &&& a.mode_switch_timer == b.mode_switch_timer
    &&& a.current_mode_duration == b.current_mode_duration
}

/// The first direction whose next cell minimizes squared Euclidean
/// distance to `target`.
fn best_dir_by_dist_sq(dirs: &Vec<Vec2i>, base: Vec2i, target: Vec2i) -> (r: Vec2i)
    requires
        dirs@.len() > 0,
        forall|i: int| 0 <= i < dirs@.len() ==> is_unit_dir(#[trigger] dirs@[i]),
        0 <= base.x <= 100_000,
        0 <= base.y <= 100_000,
        crate::vec2::abs_i(target.x as int) <= 0x1000_0000,
        crate::vec2::abs_i(target.y as int) <= 0x1000_0000,
    ensures
        exists|k: int| #[trigger] is_first_min(dist_sq_scores(dirs@, base, target), k) && r
            == dirs@[k],
{
    let ghost scores = dist_sq_scores(dirs@, base, target);
    let mut best: usize = 0;
    let mut best_score: i64 = base.plus(dirs[0]).dist_sq(target);
    let mut i: usize = 1;
    while i < dirs.len()
        invariant
            1 <= i <= dirs@.len(),
            best < i,
            scores == dist_sq_scores(dirs@, base, target),
            forall|j: int| 0 <= j < dirs@.len() ==> is_unit_dir(#[trigger] dirs@[j]),
            0 <= base.x <= 100_000,
            0 <= base.y <= 100_000,
            crate::vec2::abs_i(target.x as int) <= 0x1000_0000,
            crate::vec2::abs_i(target.y as int) <= 0x1000_0000,
            best_score == scores[best as int],
            forall|j: int| 0 <= j < i ==> scores[best as int] <= #[trigger] scores[j],
            forall|j: int| 0 <= j < best ==> #[trigger] scores[j] > scores[best as int],
        decreases dirs@.len() - i,
    {
        let s = base.plus(dirs[i]).dist_sq(target);
        if s < best_score {
            best = i;
            best_score = s;
        }
        i = i + 1;
    }
    proof {
        assert(is_first_min(scores, best as int));
    }
    dirs[best]
}

/// The first direction whose next cell minimizes Manhattan distance to
/// `target`.
fn best_dir_by_manhattan(dirs: &Vec<Vec2i>, base: Vec2i, target: Vec2i) -> (r: Vec2i)
    requires
        dirs@.len() > 0,
        forall|i: int| 0 <= i < dirs@.len() ==> is_unit_dir(#[trigger] dirs@[i]),
        0 <= base.x <= 100_000,
        0 <= base.y <= 100_000,
    ensures
        exists|k: int| #[trigger] is_first_min(manhattan_scores(dirs@, base, target), k) && r
            == dirs@[k],
{
    let ghost scores = manhattan_scores(dirs@, base, target);
    let mut best: usize = 0;
    let mut best_score: i64 = base.plus(dirs[0]).manhattan(target);
    let mut i: usize = 1;
    while i < dirs.len()
        invariant
            1 <= i <= dirs@.len(),
            best < i,
            scores == manhattan_scores(dirs@, base, target),
            forall|j: int| 0 <= j < dirs@.len() ==> is_unit_dir(#[trigger] dirs@[j]),
            0 <= base.x <= 100_000,
            0 <= base.y <= 100_000,
            best_score == scores[best as int],
            forall|j: int| 0 <= j < i ==> scores[best as int] <= #[trigger] scores[j],
            forall|j: int| 0 <= j < best ==> #[trigger] scores[j] > scores[best as int],
        decreases dirs@.len() - i,
    {
        let s = base.plus(dirs[i]).manhattan(target);
        if s < best_score {
            best = i;
            best_score = s;
        }
        i = i + 1;
    }
    proof {
        assert(is_first_min(scores, best as int));
    }
    dirs[best]
}

impl GhostAgent {
    /// Chooses the best movement direction among `possible_dirs` toward
    /// `target_pos`, following the mode's policy: uniform non-reversing
    /// random choice in Frightened; a cached or fresh search path (with a
    /// nearest-by-squared-distance fallback) while returning to base; a
    /// fresh search path at junctions, else the nearest-by-Manhattan
    /// direction, in Chase and Scatter. Only the cached path may change.
    pub fn choose_best_direction(
        &mut self,
        target_pos: Vec2i,
        possible_dirs: &Vec<Vec2i>,
        map_data: &MapData,
        rng: &mut rand::rngs::StdRng,
    ) -> (r: Option<Vec2i>)
        requires
            old(self).wf(),
            map_data.wf(),
            map_data.contains_pos(old(self).tile_pos),
            map_data.open_cell(old(self).tile_pos),
            crate::vec2::abs_i(target_pos.x as int) <= 0x1000_0000,
            crate::vec2::abs_i(target_pos.y as int) <= 0x1000_0000,
            forall|i: int|
                0 <= i < possible_dirs@.len() ==> is_unit_dir(#[trigger] possible_dirs@[i])
                    && map_data.open_cell(spec_step(old(self).tile_pos, possible_dirs@[i])),
            forall|d2: Vec2i|
                is_unit_dir(d2) && spec_dir_allowed(*old(self), map_data, false, d2)
                    ==> possible_dirs@.contains(d2),
        ensures
            final(self).wf(),
            eq_but_cache(*final(self), *old(self)),
            r is Some <==> possible_dirs@.len() > 0,
            r matches Some(d) ==> possible_dirs@.contains(d),
            old(self).mode is Frightened ==> *final(self) == *old(self) && ((exists|d2: Vec2i|
                possible_dirs@.contains(d2) && d2 != spec_neg(old(self).last_move_dir))
                ==> (r matches Some(d) && d != spec_neg(old(self).last_move_dir))),
            old(self).mode is ReturnToBase ==> final(self).mode is ReturnToBase && (old(
                self,
            ).path_cache is Some ==> final(self).path_cache == old(self).path_cache),
            old(self).mode is ReturnToBase && old(self).path_cache is None ==> (final(self).path_cache matches Some(pc) ==> valid_path(
                map_data,
                old(self).tile_pos,
                target_pos,
                pc@,
            ) && (forall|q: Seq<Vec2i>|
                valid_path(map_data, old(self).tile_pos, target_pos, q) ==> q.len()
                    >= pc@.len())),
            old(self).mode is ReturnToBase && possible_dirs@.len() > 0 ==> (match spec_path_step(
                final(self).path_cache,
                old(self).tile_pos,
                possible_dirs@,
            ) {
                Some(d0) => r == Some(d0),
                None => exists|k: int|
                    #[trigger] is_first_min(
                        dist_sq_scores(possible_dirs@, old(self).tile_pos, target_pos),
                        k,
                    ) && r == Some(possible_dirs@[k]),
            }),
            (old(self).mode is Chase || old(self).mode is Scatter) ==> (r matches Some(d) ==> ({
                ||| (possible_dirs@.len() > 2 && spec_shortest_step(
                    map_data,
                    old(self).tile_pos,
                    target_pos,
                    d,
                ) && possible_dirs@.contains(d))
                ||| ((exists|k: int|
                    #[trigger] is_first_min(
                        manhattan_scores(possible_dirs@, old(self).tile_pos, target_pos),
                        k,
                    ) && d == possible_dirs@[k]) && ({
                    ||| possible_dirs@.len() <= 2
                    ||| old(self).tile_pos == target_pos
                    ||| (forall|q: Seq<Vec2i>|
                        !valid_path(map_data, old(self).tile_pos, target_pos, q))
                    ||| spec_shortest_step(
                        map_data,
                        old(self).tile_pos,
                        target_pos,
                        spec_neg(old(self).last_move_dir),
                    )
                }))
            })),
    {
        if possible_dirs.len() == 0 {
            return None;
        }
        if matches!(self.mode, GhostMode::Frightened) {
            // Random choice, but never an immediate reversal while another
            // legal direction exists.
            let rev = self.last_move_dir.neg();
            let mut non_reverse_dirs: Vec<Vec2i> = Vec::new();
            let mut i: usize = 0;
            while i < possible_dirs.len()
                invariant
                    i <= possible_dirs@.len(),
                    forall|k: int|
                        0 <= k < non_reverse_dirs@.len() ==> #[trigger] non_reverse_dirs@[k]
                            != spec_neg(self.last_move_dir) && possible_dirs@.contains(
                            non_reverse_dirs@[k],
                        ),
                    (exists|j: int| 0 <= j < i && #[trigger] possible_dirs@[j] != spec_neg(
                        self.last_move_dir,
                    )) <==> non_reverse_dirs@.len() > 0,
                    rev == spec_neg(self.last_move_dir),
                decreases possible_dirs@.len() - i,
            {
                let d = possible_dirs[i];
                let ghost old_nr = non_reverse_dirs@;
                if d != rev {
                    non_reverse_dirs.push(d);
                    proof {
                        assert(possible_dirs@.contains(d)) by {
                            assert(possible_dirs@[i as int] == d);
                        }
                        assert forall|k: int|
                            0 <= k < non_reverse_dirs@.len()
                                implies #[trigger] non_reverse_dirs@[k] != spec_neg(
                            self.last_move_dir,
                        ) && possible_dirs@.contains(non_reverse_dirs@[k]) by {
                            if k < old_nr.len() {
                                assert(non_reverse_dirs@[k] == old_nr[k]);
                            } else {
                                assert(non_reverse_dirs@[k] == d);
                            }
                        }
                        assert(possible_dirs@[i as int] != spec_neg(self.last_move_dir));
                    }
                } else {
                    proof {
                        assert(possible_dirs@[i as int] == spec_neg(self.last_move_dir));
                        if exists|j: int|
                            0 <= j < i + 1 && #[trigger] possible_dirs@[j] != spec_neg(
                                self.last_move_dir,
                            ) {
                            let j = choose|j: int|
                                0 <= j < i + 1 && #[trigger] possible_dirs@[j] != spec_neg(
                                    self.last_move_dir,
                                );
                            assert(j < i);
                        }
                    }
                }
                i = i + 1;
            }
            if non_reverse_dirs.len() > 0 {
                let random_idx = rng_below(rng, non_reverse_dirs.len());
                let d = non_reverse_dirs[random_idx];
                return Some(d);
            }
            // Only the reversal remains.
            proof {
                if exists|d2: Vec2i| possible_dirs@.contains(d2) && d2 != spec_neg(
                    self.last_move_dir,
                ) {
                    let d2 = choose|d2: Vec2i|
                        possible_dirs@.contains(d2) && d2 != spec_neg(self.last_move_dir);
                    let j = choose|j: int|
                        0 <= j < possible_dirs@.len() && possible_dirs@[j] == d2;
                }
            }
            let random_idx = rng_below(rng, possible_dirs.len());
            let d = possible_dirs[random_idx];
            proof {
                assert(possible_dirs@.contains(d)) by {
                    assert(possible_dirs@[random_idx as int] == d);
                }
            }
            return Some(d);
        }
        if matches!(self.mode, GhostMode::ReturnToBase) {
            // Use the cached search path, computing one if needed.
            if self.path_cache.is_none() {
                match find_path(self.tile_pos, target_pos, map_data) {
                    Some(path) => {
                        proof {
                            assert forall|i: int|
                                0 <= i < path@.len() implies 0 <= (#[trigger] path@[i]).x
                                < MAX_MAP_DIM as int && 0 <= path@[i].y < MAX_MAP_DIM as int by {
                                assert(map_data.open_cell(path@[i]));
                            }
                        }
                        self.path_cache = Some(path);
                    },
                    None => {
                        self.path_cache = None;
                    },
                }
            }
            match &self.path_cache {
                Some(path) => {
                    if path.len() > 1 {
                        let next_pos = path[1];
                        let direction = next_pos.minus(self.tile_pos);
                        if contains_dir(possible_dirs, direction) {
                            proof {
                                assert(spec_path_step(
                                    self.path_cache,
                                    self.tile_pos,
                                    possible_dirs@,
                                ) == Some(direction));
                            }
                            return Some(direction);
                        }
                    }
                },
                None => {},
            }
            proof {
                // No usable path step remains: the cache is empty, too
                // short, or its step is not among the legal directions.
                assert(spec_path_step(self.path_cache, self.tile_pos, possible_dirs@) is None);
            }
            // The search failed or its step is blocked: fall back to the
            // nearest direction by squared distance.
            let d = best_dir_by_dist_sq(possible_dirs, self.tile_pos, target_pos);
            proof {
                let scores = dist_sq_scores(possible_dirs@, self.tile_pos, target_pos);
                let k = choose|k: int| #[trigger] is_first_min(scores, k) && d
                    == possible_dirs@[k];
                assert(possible_dirs@.contains(d)) by {
                    assert(possible_dirs@[k] == d);
                }
            }
            return Some(d);
        }
        // Chase and Scatter: search only at junctions with several exits.
        if possible_dirs.len() > 2 {
            let path_opt = find_path(self.tile_pos, target_pos, map_data);
            match path_opt {
                Some(path) => {
                    if path.len() > 1 {
                        let next_pos = path[1];
                        let direction = next_pos.minus(self.tile_pos);
                        if contains_dir(possible_dirs, direction) {
                            proof {
                                assert(direction == spec_dir_to(self.tile_pos, path@[1]));
                                assert(spec_shortest_step(
                                    map_data,
                                    self.tile_pos,
                                    target_pos,
                                    direction,
                                ));
                            }
                            return Some(direction);
                        }
                        proof {
                            // The only legal unit direction the complete
                            // enumeration can miss is the immediate
                            // reversal — so this shortest path starts with
                            // it.
                            assert(direction == spec_dir_to(self.tile_pos, path@[1]));
                            assert(adjacent(self.tile_pos, path@[1]));
                            assert(is_unit_dir(direction));
                            assert(spec_step(self.tile_pos, direction) == path@[1]);
                            assert(map_data.open_cell(spec_step(self.tile_pos, direction)));
                            assert(direction == spec_neg(self.last_move_dir)) by {
                                if direction != spec_neg(self.last_move_dir) {
                                    assert(spec_dir_allowed(*self, map_data, false, direction));
                                    assert(possible_dirs@.contains(direction));
                                }
                            }
                            assert(spec_shortest_step(
                                map_data,
                                self.tile_pos,
                                target_pos,
                                spec_neg(self.last_move_dir),
                            ));
                        }
                    } else {
                        proof {
                            // A single-cell path: the ghost already stands
                            // on the target.
                            assert(path@[0] == self.tile_pos && path@[path@.len() - 1]
                                == target_pos);
                            assert(self.tile_pos == target_pos);
                        }
                    }
                },
                None => {},
            }
        }
        // Corridors and blocked searches: minimize Manhattan distance.
        let d = best_dir_by_manhattan(possible_dirs, self.tile_pos, target_pos);
        proof {
            let scores = manhattan_scores(possible_dirs@, self.tile_pos, target_pos);
            let k = choose|k: int| #[trigger] is_first_min(scores, k) && d == possible_dirs@[k];
            assert(possible_dirs@.contains(d)) by {
                assert(possible_dirs@[k] == d);
            }
        }
        Some(d)
    }
}

/// `a + b`, saturating at the top of the `u64` range.
pub open spec fn spec_sat_add(a: u64, b: u64) -> u64 {
    if a + b > u64::MAX {
        u64::MAX
    } else {
        (a + b) as u64
    }
}

/// `a - b`, saturating at zero.
pub open spec fn spec_sat_sub(a: u64, b: u64) -> u64 {
    if a >= b {
        (a - b) as u64
    } else {
        0
    }
}

/// Scatter and Chase swap; other modes are untouched by the schedule.
pub open spec fn spec_toggle(mode: GhostMode) -> GhostMode {
    if mode is Scatter {
        GhostMode::Chase
    } else if mode is Chase {
        GhostMode::Scatter
    } else {
        mode
    }
}

/// One timer advance of the Scatter/Chase schedule: the phase timer grows
/// by `delta`; when it reaches the scheduled duration the mode toggles,
/// the completed duration joins the aggregate, and the next duration is
/// looked up from the aggregate. A `None` duration means permanent Chase:
/// nothing ever switches again.
pub open spec fn spec_schedule_step(
    mode: GhostMode,
    timer: u64,
    dur: Option<u64>,
    elapsed: u64,
    delta: u64,
) -> (GhostMode, u64, Option<u64>, u64) {
    let t2 = spec_sat_add(timer, delta);
    match dur {
        Some(d) => if t2 >= d {
            let e2 = spec_sat_add(elapsed, d);
            (spec_toggle(mode), 0, spec_schedule_duration(e2 as int), e2)
        } else {
            (mode, t2, dur, elapsed)
        },
        None => (mode, t2, dur, elapsed),
    }
}


/// How one timer advance of `delta` microseconds transforms the ghost's
/// mode, speed and timers (the cached path aside): the house countdown
/// while housed, the Frightened countdown, the Scatter/Chase schedule,
/// and the automatic switch to Chase at the spawn cell.
pub open spec fn spec_timers_advanced(o: GhostAgent, n: GhostAgent, delta: u64) -> bool {
    &&& o.in_house ==> ({
        let hd = spec_sat_sub(o.house_delay, delta);
        &&& n.house_delay == hd
        &&& n.frightened_time == o.frightened_time
        &&& n.schedule_elapsed == o.schedule_elapsed
        &&& (hd == 0 ==> {
            &&& !n.in_house
            &&& n.mode is Scatter
            &&& n.movement.speed == GHOST_SPEED
            &&& n.mode_switch_timer == 0
            &&& n.current_mode_duration == Some(SCATTER_LONG)
        })
        &&& (hd > 0 ==> {
            &&& n.in_house
            &&& n.mode == o.mode
            &&& n.movement.speed == o.movement.speed
            &&& n.mode_switch_timer == o.mode_switch_timer
            &&& n.current_mode_duration == o.current_mode_duration
        })
    })
    &&& !o.in_house ==> n.in_house == o.in_house && n.house_delay == o.house_delay
    &&& !o.in_house && o.mode is Frightened ==> ({
        let ft = spec_sat_sub(o.frightened_time, delta);
        &&& n.frightened_time == ft
        &&& n.schedule_elapsed == o.schedule_elapsed
        &&& (ft == 0 ==> {
            &&& n.mode is Chase
            &&& n.movement.speed == GHOST_SPEED
            &&& n.mode_switch_timer == 0
            &&& n.current_mode_duration == spec_resume_chase_duration(o.schedule_elapsed as int)
        })
        &&& (ft > 0 ==> {
            &&& n.mode is Frightened
            &&& n.movement.speed == o.movement.speed
            &&& n.mode_switch_timer == spec_sat_add(o.mode_switch_timer, delta)
            &&& n.current_mode_duration == o.current_mode_duration
        })
    })
    &&& !o.in_house && (o.mode is Scatter || o.mode is Chase) ==> ({
        let (m2, t2, d2, e2) = spec_schedule_step(
            o.mode,
            o.mode_switch_timer,
            o.current_mode_duration,
            o.schedule_elapsed,
            delta,
        );
        &&& n.mode == m2
        &&& n.mode_switch_timer == t2
        &&& n.current_mode_duration == d2
        &&& n.schedule_elapsed == e2
        &&& n.frightened_time == o.frightened_time
        &&& n.movement.speed == o.movement.speed
    })
    &&& !o.in_house && o.mode is ReturnToBase ==> ({
        &&& n.frightened_time == o.frightened_time
        &&& n.schedule_elapsed == o.schedule_elapsed
        &&& (o.tile_pos == o.spawn_pos ==> {
            &&& n.mode is Chase
            &&& n.movement.speed == GHOST_SPEED
            &&& n.mode_switch_timer == 0
            &&& n.current_mode_duration == spec_resume_chase_duration(o.schedule_elapsed as int)
        })
        &&& (o.tile_pos != o.spawn_pos ==> {
            &&& n.mode is ReturnToBase
            &&& n.movement.speed == o.movement.speed
            &&& n.mode_switch_timer == spec_sat_add(o.mode_switch_timer, delta)
            &&& n.current_mode_duration == o.current_mode_duration
        })
    })
}

impl GhostAgent {
    /// Advances all mode timers by `delta` microseconds and applies the
    /// resulting transitions: the house-exit countdown while housed (no
    /// other timer advances then), the Frightened countdown, the
    /// alternating Scatter/Chase schedule, and the automatic
    /// ReturnToBase-to-Chase switch at the spawn cell.
    pub fn update_timers(&mut self, delta: u64)
        requires
            old(self).wf(),
        ensures
            final(self).wf(),
            final(self).tile_pos == old(self).tile_pos,
            final(self).spawn_pos == old(self).spawn_pos,
            final(self).ghost_type == old(self).ghost_type,
            final(self).target_pos == old(self).target_pos,
            final(self).last_move_dir == old(self).last_move_dir,
            final(self).at_intersection == old(self).at_intersection,
            final(self).movement.direction == old(self).movement.direction,
            final(self).movement.is_moving == old(self).movement.is_moving,
            final(self).movement.accumulated_time == old(self).movement.accumulated_time,
            spec_timers_advanced(*old(self), *final(self), delta),
            !old(self).in_house && old(self).mode is Frightened && spec_sat_sub(
                old(self).frightened_time,
                delta,
            ) == 0 ==> final(self).path_cache is None,
            !old(self).in_house && (old(self).mode is Scatter || old(self).mode is Chase)
                && final(self).mode != old(self).mode ==> final(self).path_cache is None,
            !old(self).in_house && old(self).mode is ReturnToBase && old(self).tile_pos == old(
                self,
            ).spawn_pos ==> final(self).path_cache is None,
    {
        // While housed, only the house-exit delay advances.
        if self.in_house {
            self.house_delay = self.house_delay.saturating_sub(delta);
            self.try_leave_house();
            return ;
        }
        self.mode_switch_timer = self.mode_switch_timer.saturating_add(delta);
        match self.mode {
            GhostMode::Frightened => {
                self.frightened_time = self.frightened_time.saturating_sub(delta);
                if self.frightened_time == 0 {
                    // Frightened is over: resume the schedule from the
                    // Chase branch at nominal speed.
                    self.mode = GhostMode::Chase;
                    self.movement.speed = GHOST_SPEED;
                    self.mode_switch_timer = 0;
                    self.current_mode_duration = if self.schedule_elapsed >= PERMANENT_CHASE_AT {
                        None
                    } else {
                        Some(CHASE_PHASE)
                    };
                    self.path_cache = None;
                }
            },
            GhostMode::Scatter | GhostMode::Chase => {
                match self.current_mode_duration {
                    Some(d) => {
                        if self.mode_switch_timer >= d {
                            // Phase complete: toggle the mode and look the
                            // next duration up from the aggregate.
                            self.mode = if matches!(self.mode, GhostMode::Scatter) {
                                GhostMode::Chase
                            } else {
                                GhostMode::Scatter
                            };
                            self.mode_switch_timer = 0;
                            self.path_cache = None;
                            self.schedule_elapsed = self.schedule_elapsed.saturating_add(d);
                            self.current_mode_duration = schedule_duration_exec(
                                self.schedule_elapsed,
                            );
                        }
                    },
                    None => {},
                }
            },
            GhostMode::ReturnToBase => {
                // Back at the spawn cell: rejoin the hunt.
                if self.tile_pos == self.spawn_pos {
                    self.mode = GhostMode::Chase;
                    self.movement.speed = GHOST_SPEED;
                    self.mode_switch_timer = 0;
                    self.current_mode_duration = if self.schedule_elapsed >= PERMANENT_CHASE_AT {
                        None
                    } else {
                        Some(CHASE_PHASE)
                    };
                    self.path_cache = None;
                }
            },
        }
    }
}

/// The scheduled phase duration for an aggregate, as executable code.
fn schedule_duration_exec(elapsed: u64) -> (r: Option<u64>)
    ensures
        r == spec_schedule_duration(elapsed as int),
{
    if elapsed < 7_000_000 {
        Some(SCATTER_LONG)
    } else if elapsed < 27_000_000 {
        Some(CHASE_PHASE)
    } else if elapsed < 34_000_000 {
        Some(SCATTER_LONG)
    } else if elapsed < 54_000_000 {
        Some(CHASE_PHASE)
    } else if elapsed < 59_000_000 {
        Some(SCATTER_SHORT)
    } else if elapsed < 79_000_000 {
        Some(CHASE_PHASE)
    } else if elapsed < 84_000_000 {
        Some(SCATTER_SHORT)
    } else {
        None
    }
}

impl TryMove for GhostAgent {
    open spec fn movement_of(&self) -> Movement {
        self.movement
    }

    open spec fn pos_of(&self) -> Vec2i {
        self.tile_pos
    }

    open spec fn spec_stopped(&self) -> Self {
        *self
    }

    fn try_move(&mut self, map_data: &MapData) -> (r: Option<Vec2i>) {
        if self.movement.direction == Vec2i::zero() || !self.movement.is_moving {
            return None;
        }
        let new_pos = self.tile_pos.plus(self.movement.direction);
        if !map_data.is_valid_position(new_pos.x, new_pos.y) || map_data.is_wall(
            new_pos.x as usize,
            new_pos.y as usize,
        ) {
            return None;
        }
        Some(new_pos)
    }
}

impl GhostAgent {
    /// One decision step: advances the timers, then re-evaluates the
    /// target and movement direction when warranted — at a junction, with
    /// no current direction, or when continuing straight would hit a wall.
    /// The tile position itself only changes through committed movement
    /// ticks, never here.
    pub fn update(
        &mut self,
        player_pos: Vec2i,
        player_dir: Vec2i,
        blinky_pos: Vec2i,
        map_data: &MapData,
        rng: &mut rand::rngs::StdRng,
        delta: u64,
    )
        requires
            old(self).wf(),
            map_data.wf(),
            map_data.contains_pos(old(self).tile_pos),
            map_data.open_cell(old(self).tile_pos),
            map_data.contains_pos(player_pos),
            map_data.contains_pos(blinky_pos),
            is_unit_or_zero(player_dir),
        ensures
            final(self).wf(),
            is_unit_or_zero(final(self).movement.direction),
            spec_decision_step(
                *old(self),
                *final(self),
                player_pos,
                player_dir,
                blinky_pos,
                map_data,
                delta,
            ),
    {
        let ghost o = *old(self);
        self.update_timers(delta);
        let ghost g1 = GhostAgent { mode: self.mode, ..o };

        // Direction is re-evaluated only at junctions or when forced.
        let at_junction = self.check_intersection(map_data);
        proof {
            lemma_possible_dirs_agree(*self, o, map_data, true);
            assert(at_junction == spec_at_junction(o, map_data));
        }
        self.at_intersection = at_junction;

        let should_recalculate = at_junction || self.movement.direction == Vec2i::zero()
            || self.will_hit_wall(map_data);
        proof {
            assert(should_recalculate == spec_recalc_warranted(o, map_data));
        }

        if should_recalculate {
            let ghost pre_calc = *self;
            let new_target = self.calc_target(player_pos, player_dir, blinky_pos, map_data, rng);
            proof {
                lemma_possible_dirs_agree(pre_calc, g1, map_data, true);
            }

            // A changed target invalidates the cached path.
            if new_target != self.target_pos {
                self.target_pos = new_target;
                self.path_cache = None;
            }

            let possible_dirs = self.get_possible_direction(map_data, false);
            proof {
                lemma_possible_dirs_agree(*self, g1, map_data, false);
                assert forall|d2: Vec2i|
                    is_unit_dir(d2) && spec_dir_allowed(*self, map_data, false, d2)
                        implies possible_dirs@.contains(d2) by {
                    lemma_possible_dirs_contains(*self, map_data, false, d2);
                }
            }

            let target_pos = self.target_pos;
            match self.choose_best_direction(target_pos, &possible_dirs, map_data, rng) {
                Some(new_dir) => {
                    proof {
                        lemma_possible_dirs_contains(g1, map_data, false, new_dir);
                        assert(spec_possible_dirs(g1, map_data, false).contains(new_dir));
                    }
                    self.movement.direction = new_dir;
                    self.last_move_dir = new_dir;
                },
                None => {},
            }
        }
    }
}

/// The ghost stands at a junction: more than two exits, or exactly two
/// exits that do not include the reverse of the last direction.
pub open spec fn spec_at_junction(g: GhostAgent, map: &MapData) -> bool {
    let dirs = spec_possible_dirs(g, map, true);
    dirs.len() > 2 || (dirs.len() == 2 && !dirs.contains(spec_neg(g.last_move_dir)))
}

/// Target and direction are re-evaluated only when warranted: at a
/// junction, with no movement intent, or when continuing straight would
/// leave the grid or hit a wall.
pub open spec fn spec_recalc_warranted(g: GhostAgent, map: &MapData) -> bool {
    ||| spec_at_junction(g, map)
    ||| g.movement.direction == (Vec2i { x: 0, y: 0 })
    ||| !map.open_cell(spec_step(g.tile_pos, g.movement.direction))
}

/// The legal-direction enumeration depends only on the cell stood on —
/// and, when reversal is restricted, on the last direction and the mode.
pub proof fn lemma_possible_dirs_agree(
    a: GhostAgent,
    b: GhostAgent,
    map: &MapData,
    allow_reverse: bool,
)
    requires
        a.tile_pos == b.tile_pos,
        allow_reverse || (a.last_move_dir == b.last_move_dir && a.mode == b.mode),
    ensures
        spec_possible_dirs(a, map, allow_reverse) == spec_possible_dirs(b, map, allow_reverse),
{
    assert(spec_dir_allowed(a, map, allow_reverse, Vec2i { x: 1, y: 0 }) == spec_dir_allowed(
        b,
        map,
        allow_reverse,
        Vec2i { x: 1, y: 0 },
    ));
    assert(spec_dir_allowed(a, map, allow_reverse, Vec2i { x: 0, y: 1 }) == spec_dir_allowed(
        b,
        map,
        allow_reverse,
        Vec2i { x: 0, y: 1 },
    ));
    assert(spec_dir_allowed(a, map, allow_reverse, Vec2i { x: -1i32, y: 0 }) == spec_dir_allowed(
        b,
        map,
        allow_reverse,
        Vec2i { x: -1i32, y: 0 },
    ));
    assert(spec_dir_allowed(a, map, allow_reverse, Vec2i { x: 0, y: -1i32 }) == spec_dir_allowed(
        b,
        map,
        allow_reverse,
        Vec2i { x: 0, y: -1i32 },
    ));
}

/// How one decision step transforms a ghost, for every outcome of the
/// random source: the timers advance as scheduled; the junction flag is
/// refreshed; off a junction with a usable direction nothing else
/// changes; when re-evaluation is warranted the target is recomputed by
/// the mode's rule and a direction is taken from the legal non-reversing
/// enumeration whenever one exists (never the immediate reversal while
/// Frightened offers an alternative).
pub open spec fn spec_decision_step(
    o: GhostAgent,
    n: GhostAgent,
    player_pos: Vec2i,
    player_dir: Vec2i,
    blinky_pos: Vec2i,
    map: &MapData,
    delta: u64,
) -> bool {
    let recalc = spec_recalc_warranted(o, map);
    let g1 = GhostAgent { mode: n.mode, ..o };
    let dirs = spec_possible_dirs(g1, map, false);
    &&& n.tile_pos == o.tile_pos
    &&& n.spawn_pos == o.spawn_pos
    &&& n.ghost_type == o.ghost_type
    &&& n.movement.is_moving == o.movement.is_moving
    &&& n.movement.accumulated_time == o.movement.accumulated_time
    &&& spec_timers_advanced(o, n, delta)
    &&& n.at_intersection == spec_at_junction(o, map)
    &&& (!recalc ==> {
        &&& n.target_pos == o.target_pos
        &&& n.movement.direction == o.movement.direction
        &&& n.last_move_dir == o.last_move_dir
    })
    &&& (recalc ==> {
        &&& (n.mode is ReturnToBase ==> n.target_pos == o.spawn_pos)
        &&& (n.mode is Scatter ==> n.target_pos == spec_scatter_corner(o.ghost_type, map))
        &&& (n.mode is Chase ==> n.target_pos == spec_chase_target(
            o.ghost_type,
            o.tile_pos,
            player_pos,
            player_dir,
            blinky_pos,
            map,
        ))
        &&& (n.mode is Frightened ==> {
            let fdirs = spec_possible_dirs(g1, map, true);
            &&& (fdirs.len() == 0 ==> n.target_pos == player_pos)
            &&& (fdirs.len() > 0 ==> exists|d2: Vec2i|
                #[trigger] fdirs.contains(d2) && n.target_pos == spec_offset(o.tile_pos, d2, 4))
        })
        &&& (dirs.len() > 0 ==> {
            &&& is_unit_dir(n.movement.direction)
            &&& dirs.contains(n.movement.direction)
            &&& map.open_cell(spec_step(o.tile_pos, n.movement.direction))
            &&& n.last_move_dir == n.movement.direction
        })
        &&& (dirs.len() > 0 && n.mode is Frightened && (exists|d2: Vec2i|
            #[trigger] dirs.contains(d2) && d2 != spec_neg(o.last_move_dir))
            ==> n.movement.direction != spec_neg(o.last_move_dir))
        &&& (dirs.len() == 0 ==> n.movement.direction == o.movement.direction
            && n.last_move_dir == o.last_move_dir)
    })
}

/// The aggregate scheduled time at which phase `i` of the fixed
/// Scatter/Chase sequence begins.
pub open spec fn phase_start(i: int) -> int {
    if i <= 0 {
        0
    } else if i == 1 {
        7_000_000
    } else if i == 2 {
        27_000_000
    } else if i == 3 {
        34_000_000
    } else if i == 4 {
        54_000_000
    } else if i == 5 {
        59_000_000
    } else if i == 6 {
        79_000_000
    } else {
        84_000_000
    }
}

/// The mode of phase `i`: Scatter on even phases, Chase on odd ones, and
/// Chase forever from phase 7 on.
pub open spec fn phase_mode(i: int) -> GhostMode {
    if i >= 7 {
        GhostMode::Chase
    } else if i % 2 == 0 {
        GhostMode::Scatter
    } else {
        GhostMode::Chase
    }
}

/// The schedule state sits exactly at phase `i` of the fixed sequence,
/// `timer` microseconds into it.
pub open spec fn on_schedule(
    mode: GhostMode,
    timer: u64,
    dur: Option<u64>,
    elapsed: u64,
    i: int,
) -> bool {
    &&& 0 <= i <= 7
    &&& mode == phase_mode(i)
    &&& elapsed == phase_start(i)
    &&& dur == spec_schedule_duration(phase_start(i))
    &&& (i < 7 ==> timer < spec_schedule_duration(phase_start(i)).unwrap())
}

/// A ghost that has just left the house (or was just created) starts at
/// the very beginning of the first scheduled Scatter phase.
pub proof fn lemma_schedule_fresh()
    ensures
        on_schedule(GhostMode::Scatter, 0, Some(SCATTER_LONG), 0, 0),
{
}

/// The mode schedule follows the fixed 7/20/7/20/5/20/5-then-permanent-
/// Chase sequence exactly: while the elapsed phase time stays short of
/// the scheduled duration the phase is kept; the moment it is reached the
/// mode switches into the next phase of the table; and once the table is
/// exhausted (permanent Chase) no amount of further elapsed time ever
/// changes the mode again — in particular, Scatter never returns after
/// its fourth phase.
pub proof fn lemma_mode_schedule_step(
    mode: GhostMode,
    timer: u64,
    dur: Option<u64>,
    elapsed: u64,
    i: int,
    delta: u64,
)
    requires
        on_schedule(mode, timer, dur, elapsed, i),
    ensures
        ({
            let (m2, t2, d2, e2) = spec_schedule_step(mode, timer, dur, elapsed, delta);
            &&& (i < 7 && timer + delta < spec_schedule_duration(phase_start(i)).unwrap()
                ==> on_schedule(m2, t2, d2, e2, i) && m2 == mode && t2 == timer + delta)
            &&& (i < 7 && timer + delta >= spec_schedule_duration(phase_start(i)).unwrap()
                ==> on_schedule(m2, t2, d2, e2, i + 1) && t2 == 0)
            &&& (i == 7 ==> m2 == GhostMode::Chase && d2 is None && e2 == elapsed && on_schedule(
                m2,
                t2,
                d2,
                e2,
                7,
            ))
        }),
{
}

} // verus!
