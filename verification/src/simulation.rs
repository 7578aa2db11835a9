//! The per-step simulation driver: feeds every ghost one snapshot of the
//! player's state and the lead agent's position, then commits the due
//! movement ticks against the map.

use vstd::prelude::*;
use crate::events::EatPelletEvent;
use crate::ghost_agent::GhostAgent;
use crate::ghost_agent::GhostType;
use crate::ghost_agent::spec_decision_step;
use crate::map::MapData;
use crate::map::TileType;
use crate::movement::TryMove;
use crate::movement::spec_residual;
use crate::movement::spec_ticks_due;
use crate::movement::Movement;
use crate::pellet::spec_is_power_pellet;
use crate::pellet::PelletType;
use crate::player::Player;
use crate::vec2::Vec2i;
use crate::vec2::is_unit_or_zero;
use crate::ghost_agent::spec_offset;
use crate::map::MAX_MAP_DIM;

verus! {

/// The shared lead-agent snapshot: the tile position of the first
/// direct-pursuer in the roster, or the fallback when none is present.
pub open spec fn spec_lead_pos(ghosts: Seq<GhostAgent>, fallback: Vec2i) -> Vec2i
    decreases ghosts.len(),
{
    if ghosts.len() == 0 {
        fallback
    } else if ghosts[0].ghost_type is Blinky {
        ghosts[0].tile_pos
    } else {
        spec_lead_pos(ghosts.drop_first(), fallback)
    }
}

/// With no direct pursuer among the first `i` agents, the lead position
/// is decided by the rest of the roster.
proof fn lemma_lead_pos_skip(ghosts: Seq<GhostAgent>, fallback: Vec2i, i: int)
    requires
        0 <= i <= ghosts.len(),
        forall|j: int| 0 <= j < i ==> !((#[trigger] ghosts[j]).ghost_type is Blinky),
    ensures
        spec_lead_pos(ghosts, fallback) == spec_lead_pos(ghosts.skip(i), fallback),
    decreases i,
{
    if i > 0 {
        assert(ghosts.skip(i - 1).drop_first() =~= ghosts.skip(i));
        assert(ghosts.skip(i - 1)[0] == ghosts[i - 1]);
        lemma_lead_pos_skip(ghosts, fallback, i - 1);
    } else {
        assert(ghosts.skip(0) =~= ghosts);
    }
}

/// The lead position is the fallback or some roster member's tile.
proof fn lemma_lead_pos_cases(ghosts: Seq<GhostAgent>, fallback: Vec2i)
    ensures
        spec_lead_pos(ghosts, fallback) == fallback || exists|i: int|
            0 <= i < ghosts.len() && spec_lead_pos(ghosts, fallback) == (
            #[trigger] ghosts[i]).tile_pos,
    decreases ghosts.len(),
{
    if ghosts.len() > 0 && !(ghosts[0].ghost_type is Blinky) {
        lemma_lead_pos_cases(ghosts.drop_first(), fallback);
        if spec_lead_pos(ghosts, fallback) != fallback {
            let i = choose|i: int|
                0 <= i < ghosts.drop_first().len() && spec_lead_pos(ghosts.drop_first(), fallback)
                    == (#[trigger] ghosts.drop_first()[i]).tile_pos;
            assert(ghosts[i + 1].tile_pos == ghosts.drop_first()[i].tile_pos);
        }
    }
}

/// The tile position of the first direct-pursuer ("lead") agent, or the
/// fallback when none is present.
pub fn blinky_position(ghosts: &Vec<GhostAgent>, fallback: Vec2i) -> (r: Vec2i)
    ensures
        r == spec_lead_pos(ghosts@, fallback),
{
    let mut i: usize = 0;
    while i < ghosts.len()
        invariant
            i <= ghosts@.len(),
            forall|j: int| 0 <= j < i ==> !((#[trigger] ghosts@[j]).ghost_type is Blinky),
        decreases ghosts@.len() - i,
    {
        if matches!(ghosts[i].ghost_type, GhostType::Blinky) {
            proof {
                lemma_lead_pos_skip(ghosts@, fallback, i as int);
                assert(ghosts@.skip(i as int)[0] == ghosts@[i as int]);
            }
            return ghosts[i].tile_pos;
        }
        i = i + 1;
    }
    proof {
        lemma_lead_pos_skip(ghosts@, fallback, ghosts@.len() as int);
    }
    fallback
}

/// Every ghost in the roster is well-formed and stands on an open cell.
pub open spec fn ghosts_ok(ghosts: Seq<GhostAgent>, map: &MapData) -> bool {
    forall|i: int|
        0 <= i < ghosts.len() ==> (#[trigger] ghosts[i]).wf() && map.open_cell(ghosts[i].tile_pos)
}

/// One decision pass over all ghosts: each observes the same snapshot of
/// the player's position and facing and of the lead agent's position
/// (taken once, before iterating), so the outcome does not depend on the
/// iteration order of unrelated agents.
pub fn ghost_ai_step(
    ghosts: &mut Vec<GhostAgent>,
    player_pos: Vec2i,
    player_dir: Vec2i,
    map_data: &MapData,
    rng: &mut rand::rngs::StdRng,
    delta: u64,
)
    requires
        map_data.wf(),
        ghosts_ok(old(ghosts)@, map_data),
        map_data.contains_pos(player_pos),
        is_unit_or_zero(player_dir),
    ensures
        final(ghosts)@.len() == old(ghosts)@.len(),
        ghosts_ok(final(ghosts)@, map_data),
        forall|i: int|
            0 <= i < final(ghosts)@.len() ==> spec_decision_step(
                old(ghosts)@[i],
                #[trigger] final(ghosts)@[i],
                player_pos,
                player_dir,
                spec_lead_pos(old(ghosts)@, player_pos),
                map_data,
                delta,
            ),
{
    let blinky_pos = blinky_position(ghosts, player_pos);
    proof {
        lemma_lead_pos_cases(ghosts@, player_pos);
    }
    let mut i: usize = 0;
    while i < ghosts.len()
        invariant
            map_data.wf(),
            ghosts@.len() == old(ghosts)@.len(),
            i <= ghosts@.len(),
            ghosts_ok(ghosts@, map_data),
            map_data.contains_pos(player_pos),
            map_data.contains_pos(blinky_pos),
            blinky_pos == spec_lead_pos(old(ghosts)@, player_pos),
            is_unit_or_zero(player_dir),
            forall|j: int| i <= j < ghosts@.len() ==> #[trigger] ghosts@[j] == old(ghosts)@[j],
            forall|j: int|
                0 <= j < i ==> spec_decision_step(
                    old(ghosts)@[j],
                    #[trigger] ghosts@[j],
                    player_pos,
                    player_dir,
                    blinky_pos,
                    map_data,
                    delta,
                ),
        decreases ghosts@.len() - i,
    {
        let ghost pre = ghosts@;
        let g: &mut GhostAgent = &mut ghosts[i];
        g.update(player_pos, player_dir, blinky_pos, map_data, rng, delta);
        proof {
            assert(ghosts@ =~= pre.update(i as int, ghosts@[i as int]));
        }
        i = i + 1;
    }
}

/// `n` stands `k` straight one-cell steps from `o` along `o`'s movement
/// direction, with every intermediate coordinate on the grid's range.
pub open spec fn straight_reach(o: GhostAgent, n: GhostAgent, k: int) -> bool {
    &&& 0 <= k
    &&& 0 <= o.tile_pos.x + k * o.movement.direction.x < MAX_MAP_DIM as int
    &&& 0 <= o.tile_pos.y + k * o.movement.direction.y < MAX_MAP_DIM as int
    &&& n.tile_pos == spec_offset(o.tile_pos, o.movement.direction, k)
}

/// The movement ticks a timer owes for a `delta` advance: none while the
/// agent is stopped.
pub open spec fn spec_ticks_of(m: Movement, delta: u64) -> int {
    if m.is_moving {
        spec_ticks_due(m.accumulated_time, delta, m.spec_interval() as u64)
    } else {
        0
    }
}

/// How one movement commit of `delta` microseconds transforms a ghost:
/// only the tile position and the banked time change; the position
/// advances one open cell per due tick along the current direction,
/// falling short of the due count only against a wall (or with no
/// direction set); the banked time is exactly the tick residue.
pub open spec fn spec_move_commit(o: GhostAgent, n: GhostAgent, map: &MapData, delta: u64) -> bool {
    let d = o.movement.direction;
    let ticks = spec_ticks_of(o.movement, delta);
    &&& n == (GhostAgent {
        tile_pos: n.tile_pos,
        movement: (Movement { accumulated_time: n.movement.accumulated_time, ..o.movement }),
        ..o
    })
    &&& (!o.movement.is_moving ==> n.movement.accumulated_time == 0)
    &&& (o.movement.is_moving ==> n.movement.accumulated_time == spec_residual(
        o.movement.accumulated_time,
        delta,
        o.movement.spec_interval() as u64,
    ))
    &&& exists|k: int|
        {
            &&& #[trigger] straight_reach(o, n, k)
            &&& k <= ticks
            &&& (forall|j: int| 1 <= j <= k ==> map.open_cell(#[trigger] spec_offset(o.tile_pos, d, j)))
            &&& (k < ticks ==> d == (Vec2i { x: 0, y: 0 }) || !map.open_cell(
                spec_offset(o.tile_pos, d, k + 1),
            ))
        }
}

/// Commits the movement ticks now due for one ghost: each tick advances
/// one cell in the current direction, re-validated against the map, so a
/// ghost never walks through a wall whatever direction was chosen.
pub fn ghost_move_step(g: &mut GhostAgent, map_data: &MapData, delta: u64)
    requires
        map_data.wf(),
        old(g).wf(),
        map_data.open_cell(old(g).tile_pos),
        old(g).movement.accumulated_time + delta <= u64::MAX,
    ensures
        final(g).wf(),
        map_data.open_cell(final(g).tile_pos),
        spec_move_commit(*old(g), *final(g), map_data, delta),
{
    let ticks = g.movement.update(delta);
    let ghost dir = g.movement.direction;
    let ghost moved = *g;
    let ghost mut kk: int = 0;
    let mut t: u64 = 0;
    proof {
        assert(*g == (GhostAgent {
            tile_pos: g.tile_pos,
            movement: (Movement { accumulated_time: g.movement.accumulated_time, ..old(g).movement }),
            ..*old(g)
        }));
        assert(straight_reach(*old(g), *g, 0));
    }
    while t < ticks
        invariant
            map_data.wf(),
            g.wf(),
            map_data.open_cell(g.tile_pos),
            t <= ticks,
            ticks > 0 ==> old(g).movement.is_moving,
            dir == old(g).movement.direction,
            *g == (GhostAgent {
                tile_pos: g.tile_pos,
                movement: moved.movement,
                ..*old(g)
            }),
            moved.movement == (Movement {
                accumulated_time: moved.movement.accumulated_time,
                ..old(g).movement
            }),
            0 <= kk <= t,
            straight_reach(*old(g), *g, kk),
            forall|j: int|
                1 <= j <= kk ==> map_data.open_cell(
                    #[trigger] spec_offset(old(g).tile_pos, dir, j),
                ),
            kk < t ==> dir == (Vec2i { x: 0, y: 0 }) || !map_data.open_cell(
                spec_offset(old(g).tile_pos, dir, kk + 1),
            ),
        decreases ticks - t,
    {
        let ghost pre = *g;
        let step = g.try_move(map_data);
        match step {
            Some(new_pos) => {
                proof {
                    let a = old(g).tile_pos;
                    assert((kk + 1) * dir.x == kk * dir.x + dir.x && (kk + 1) * dir.y == kk
                        * dir.y + dir.y) by (nonlinear_arith);
                    // A successful step means the way ahead was open, so
                    // the walk cannot have been blocked short of `t`.
                    assert(new_pos == spec_offset(a, dir, kk + 1));
                    assert(map_data.open_cell(spec_offset(a, dir, kk + 1)));
                    assert(kk == t);
                    kk = kk + 1;
                }
                g.tile_pos = new_pos;
            },
            None => {
                proof {
                    if kk == t {
                        let a = old(g).tile_pos;
                        assert((kk + 1) * dir.x == kk * dir.x + dir.x && (kk + 1) * dir.y == kk
                            * dir.y + dir.y) by (nonlinear_arith);
                        assert(dir == (Vec2i { x: 0, y: 0 }) || !map_data.open_cell(
                            spec_offset(a, dir, kk + 1),
                        ));
                    }
                }
            },
        }
        t = t + 1;
    }
    proof {
        assert(straight_reach(*old(g), *g, kk) && kk <= spec_ticks_of(old(g).movement, delta)
            && (forall|j: int|
            1 <= j <= kk ==> map_data.open_cell(#[trigger] spec_offset(old(g).tile_pos, dir, j)))
            && (kk < spec_ticks_of(old(g).movement, delta) ==> dir == (Vec2i { x: 0, y: 0 })
            || !map_data.open_cell(spec_offset(old(g).tile_pos, dir, kk + 1))));
    }
}

/// One whole per-ghost step: a decision pass against the shared snapshot,
/// followed by the movement commit of the ticks due.
pub open spec fn spec_ghost_step(
    o: GhostAgent,
    n: GhostAgent,
    player_pos: Vec2i,
    player_dir: Vec2i,
    lead_pos: Vec2i,
    map: &MapData,
    delta: u64,
) -> bool {
    exists|mid: GhostAgent|
        {
            &&& #[trigger] spec_decision_step(o, mid, player_pos, player_dir, lead_pos, map, delta)
            &&& spec_move_commit(mid, n, map, delta)
        }
}

/// One full simulation step over the whole roster: every ghost decides
/// against the same snapshot, then the due movement ticks are committed.
pub fn simulation_step(
    ghosts: &mut Vec<GhostAgent>,
    player_pos: Vec2i,
    player_dir: Vec2i,
    map_data: &MapData,
    rng: &mut rand::rngs::StdRng,
    delta: u64,
)
    requires
        map_data.wf(),
        ghosts_ok(old(ghosts)@, map_data),
        map_data.contains_pos(player_pos),
        is_unit_or_zero(player_dir),
        forall|i: int|
            0 <= i < old(ghosts)@.len() ==> (#[trigger] old(
                ghosts,
            )@[i]).movement.accumulated_time + delta <= u64::MAX,
    ensures
        final(ghosts)@.len() == old(ghosts)@.len(),
        ghosts_ok(final(ghosts)@, map_data),
        forall|i: int|
            0 <= i < final(ghosts)@.len() ==> #[trigger] spec_ghost_step(
                old(ghosts)@[i],
                final(ghosts)@[i],
                player_pos,
                player_dir,
                spec_lead_pos(old(ghosts)@, player_pos),
                map_data,
                delta,
            ),
{
    ghost_ai_step(ghosts, player_pos, player_dir, map_data, rng, delta);
    let ghost mids = ghosts@;
    let mut i: usize = 0;
    while i < ghosts.len()
        invariant
            map_data.wf(),
            ghosts@.len() == old(ghosts)@.len(),
            mids.len() == old(ghosts)@.len(),
            i <= ghosts@.len(),
            ghosts_ok(ghosts@, map_data),
            forall|j: int|
                0 <= j < mids.len() ==> spec_decision_step(
                    old(ghosts)@[j],
                    #[trigger] mids[j],
                    player_pos,
                    player_dir,
                    spec_lead_pos(old(ghosts)@, player_pos),
                    map_data,
                    delta,
                ),
            forall|j: int| i <= j < ghosts@.len() ==> #[trigger] ghosts@[j] == mids[j],
            forall|j: int|
                0 <= j < i ==> spec_move_commit(mids[j], #[trigger] ghosts@[j], map_data, delta),
            forall|j: int|
                0 <= j < old(ghosts)@.len() ==> (#[trigger] old(
                    ghosts,
                )@[j]).movement.accumulated_time + delta <= u64::MAX,
        decreases ghosts@.len() - i,
    {
        let ghost pre = ghosts@;
        let g: &mut GhostAgent = &mut ghosts[i];
        proof {
            // The decision pass never changes the banked time, so the tick
            // accounting of the commit cannot overflow.
            assert(mids[i as int].movement.accumulated_time == old(
                ghosts,
            )@[i as int].movement.accumulated_time);
        }
        ghost_move_step(g, map_data, delta);
        proof {
            assert(ghosts@ =~= pre.update(i as int, ghosts@[i as int]));
        }
        i = i + 1;
    }
    proof {
        assert forall|i: int| 0 <= i < ghosts@.len() implies #[trigger] spec_ghost_step(
            old(ghosts)@[i],
            ghosts@[i],
            player_pos,
            player_dir,
            spec_lead_pos(old(ghosts)@, player_pos),
            map_data,
            delta,
        ) by {
            assert(spec_decision_step(
                old(ghosts)@[i],
                mids[i],
                player_pos,
                player_dir,
                spec_lead_pos(old(ghosts)@, player_pos),
                map_data,
                delta,
            ) && spec_move_commit(mids[i], ghosts@[i], map_data, delta));
        }
    }
}

/// The events reported for the pellets on the cells entered along `k`
/// straight steps from `a` in direction `d`, in entry order.
pub open spec fn spec_eaten_events(m: MapData, a: Vec2i, d: Vec2i, k: int) -> Seq<EatPelletEvent>
    decreases k,
{
    if k <= 0 {
        Seq::empty()
    } else {
        spec_eaten_events(m, a, d, k - 1) + ({
            let c = spec_offset(a, d, k);
            if m.spec_tile(c.x as int, c.y as int) is Pellet {
                seq![
                    EatPelletEvent {
                        position: c,
                        pellet_type: if spec_is_power_pellet(c.x as int, c.y as int) {
                            PelletType::Power
                        } else {
                            PelletType::General
                        },
                    },
                ]
            } else {
                Seq::empty()
            }
        })
    }
}

/// `m1` is `m0` with exactly the pellets of the first `k` entered cells
/// cleared: empty where a pellet was walked over, untouched everywhere
/// else (walls and dimensions in particular never change).
pub open spec fn spec_cells_cleared(m0: MapData, m1: MapData, a: Vec2i, d: Vec2i, k: int) -> bool {
    &&& m1.width == m0.width
    &&& m1.height == m0.height
    &&& forall|x: int, y: int|
        m0.spec_in_bounds(x, y) ==> #[trigger] m1.spec_tile(x, y) == (if (exists|j: int|
            1 <= j <= k && #[trigger] spec_offset(a, d, j) == (Vec2i { x: x as i32, y: y as i32 }))
            && m0.spec_tile(x, y) is Pellet {
            TileType::Empty
        } else {
            m0.spec_tile(x, y)
        })
}

/// One movement commit of the player, witnessed by the committed step
/// count `k`: `k` of the due ticks advanced one open cell each, falling
/// short only with no intent or against a wall; a blocked attempt halts
/// the player and drops the banked time; and the map and event list
/// change by exactly the pellets of the entered cells.
pub open spec fn spec_player_commit_at(
    o: Player,
    n: Player,
    m0: MapData,
    m1: MapData,
    delta: u64,
    events: Seq<EatPelletEvent>,
    k: int,
) -> bool {
    let d = o.movement.direction;
    let ticks = spec_ticks_of(o.movement, delta);
    &&& 0 <= k <= ticks
    &&& 0 <= o.tile_pos.x + k * d.x < m0.width
    &&& 0 <= o.tile_pos.y + k * d.y < m0.height
    &&& n.tile_pos == spec_offset(o.tile_pos, d, k)
    &&& forall|j: int| 1 <= j <= k ==> m0.open_cell(#[trigger] spec_offset(o.tile_pos, d, j))
    &&& (k < ticks ==> d == (Vec2i { x: 0, y: 0 }) || !m0.open_cell(
        spec_offset(o.tile_pos, d, k + 1),
    ))
    &&& n.movement.direction == d
    &&& n.movement.speed == o.movement.speed
    &&& ({
        let stopped = o.movement.is_moving && d != (Vec2i { x: 0, y: 0 }) && k < ticks;
        if stopped {
            !n.movement.is_moving && n.movement.accumulated_time == 0
        } else {
            n.movement.is_moving == o.movement.is_moving && n.movement.accumulated_time == (
            if o.movement.is_moving {
                spec_residual(
                    o.movement.accumulated_time,
                    delta,
                    o.movement.spec_interval() as u64,
                )
            } else {
                0
            })
        }
    })
    &&& spec_cells_cleared(m0, m1, o.tile_pos, d, k)
    &&& events == spec_eaten_events(m0, o.tile_pos, d, k)
}

/// One movement commit of the player: some committed step count ties the
/// new position, halted state, cleared pellets and reported events to the
/// ticks due.
pub open spec fn spec_player_commit(
    o: Player,
    n: Player,
    m0: MapData,
    m1: MapData,
    delta: u64,
    events: Seq<EatPelletEvent>,
) -> bool {
    exists|k: int| #[trigger] spec_player_commit_at(o, n, m0, m1, delta, events, k)
}

/// Distinct step counts along a unit direction land on distinct cells.
proof fn lemma_offsets_distinct(a: Vec2i, d: Vec2i, j1: int, j2: int)
    requires
        crate::vec2::is_unit_dir(d),
        j1 != j2,
        -2 <= a.x + j1 * d.x <= MAX_MAP_DIM as int + 2,
        -2 <= a.y + j1 * d.y <= MAX_MAP_DIM as int + 2,
        -2 <= a.x + j2 * d.x <= MAX_MAP_DIM as int + 2,
        -2 <= a.y + j2 * d.y <= MAX_MAP_DIM as int + 2,
    ensures
        spec_offset(a, d, j1) != spec_offset(a, d, j2),
{
    if d.x != 0 {
        assert(j1 * d.x != j2 * d.x) by (nonlinear_arith)
            requires
                j1 != j2,
                d.x == 1 || d.x == -1,
        ;
    } else {
        assert(j1 * d.y != j2 * d.y) by (nonlinear_arith)
            requires
                j1 != j2,
                d.y == 1 || d.y == -1,
        ;
    }
}

/// Commits the player's due movement ticks: per tick, one wall-checked
/// step; a pellet on an entered cell is consumed (the cell becomes
/// empty) and reported as exactly one event, in entry order; a blocked
/// attempt halts the player without banking time. Walls and dimensions
/// never change.
pub fn player_update(player: &mut Player, map_data: &mut MapData, delta: u64) -> (events: Vec<
    EatPelletEvent,
>)
    requires
        old(map_data).wf(),
        old(player).wf(),
        old(map_data).contains_pos(old(player).tile_pos),
        old(player).movement.accumulated_time + delta <= u64::MAX,
    ensures
        final(map_data).wf(),
        final(player).wf(),
        final(map_data).contains_pos(final(player).tile_pos),
        spec_player_commit(
            *old(player),
            *final(player),
            *old(map_data),
            *final(map_data),
            delta,
            events@,
        ),
{
    let ghost m0 = *old(map_data);
    let ghost a = old(player).tile_pos;
    let mut events: Vec<EatPelletEvent> = Vec::new();
    let ticks = player.movement.update(delta);
    let ghost d = player.movement.direction;
    let ghost moved = player.movement;
    let ghost mut kk: int = 0;
    let mut t: u64 = 0;
    while t < ticks
        invariant
            map_data.wf(),
            player.wf(),
            t <= ticks,
            ticks == spec_ticks_of(old(player).movement, delta),
            ticks > 0 ==> old(player).movement.is_moving,
            d == old(player).movement.direction,
            m0 == *old(map_data),
            a == old(player).tile_pos,
            m0.contains_pos(a),
            m0.width <= MAX_MAP_DIM,
            m0.height <= MAX_MAP_DIM,
            crate::vec2::is_unit_or_zero(d),
            map_data.width == m0.width,
            map_data.height == m0.height,
            moved == (Movement { accumulated_time: moved.accumulated_time, ..old(
                player,
            ).movement }),
            moved.is_moving == old(player).movement.is_moving,
            !old(player).movement.is_moving ==> moved.accumulated_time == 0,
            old(player).movement.is_moving ==> moved.accumulated_time == spec_residual(
                old(player).movement.accumulated_time,
                delta,
                old(player).movement.spec_interval() as u64,
            ),
            0 <= kk <= t,
            0 <= a.x + kk * d.x < m0.width,
            0 <= a.y + kk * d.y < m0.height,
            player.tile_pos == spec_offset(a, d, kk),
            map_data.contains_pos(player.tile_pos),
            forall|j: int| 1 <= j <= kk ==> m0.open_cell(#[trigger] spec_offset(a, d, j)),
            kk < t ==> d == (Vec2i { x: 0, y: 0 }) || !m0.open_cell(spec_offset(a, d, kk + 1)),
            player.movement.direction == d,
            player.movement.speed == old(player).movement.speed,
            ({
                let stopped = old(player).movement.is_moving && d != (Vec2i { x: 0, y: 0 }) && kk
                    < t;
                if stopped {
                    !player.movement.is_moving && player.movement.accumulated_time == 0
                } else {
                    player.movement == moved
                }
            }),
            spec_cells_cleared(m0, *map_data, a, d, kk),
            events@ == spec_eaten_events(m0, a, d, kk),
        decreases ticks - t,
    {
        let ghost pre_map = *map_data;
        match player.try_move(map_data) {
            Some(new_pos) => {
                proof {
                    assert((kk + 1) * d.x == kk * d.x + d.x && (kk + 1) * d.y == kk * d.y + d.y)
                        by (nonlinear_arith);
                    assert(new_pos == spec_offset(a, d, kk + 1));
                    // The cell stepped into is open in the starting map:
                    // only pellets were cleared, never walls.
                    assert(map_data.spec_tile(new_pos.x as int, new_pos.y as int) == m0.spec_tile(
                        new_pos.x as int,
                        new_pos.y as int,
                    ) || m0.spec_tile(new_pos.x as int, new_pos.y as int) is Pellet);
                    assert(m0.open_cell(spec_offset(a, d, kk + 1)));
                    // An open way ahead contradicts an earlier block, so
                    // every previous tick committed.
                    assert(kk == t);
                    // The entered cell is new: all earlier entered cells
                    // are distinct from it, so it is still untouched.
                    assert forall|j: int| 1 <= j <= kk implies #[trigger] spec_offset(a, d, j)
                        != spec_offset(a, d, kk + 1) by {
                        assert(-2 <= a.x + j * d.x <= MAX_MAP_DIM as int + 2 && -2 <= a.y + j
                            * d.y <= MAX_MAP_DIM as int + 2) by (nonlinear_arith)
                            requires
                                0 <= j <= kk,
                                -1 <= d.x <= 1,
                                -1 <= d.y <= 1,
                                0 <= a.x < MAX_MAP_DIM as int,
                                0 <= a.y < MAX_MAP_DIM as int,
                                0 <= a.x + kk * d.x < MAX_MAP_DIM as int,
                                0 <= a.y + kk * d.y < MAX_MAP_DIM as int,
                        ;
                        lemma_offsets_distinct(a, d, j, kk + 1);
                    }
                    assert(map_data.spec_tile(new_pos.x as int, new_pos.y as int) == m0.spec_tile(
                        new_pos.x as int,
                        new_pos.y as int,
                    ));
                }
                player.tile_pos = new_pos;
                let ate = map_data.is_pellet(new_pos.x as usize, new_pos.y as usize);
                if ate {
                    map_data.set(
                        new_pos.x as usize,
                        new_pos.y as usize,
                        crate::map::TileType::Empty,
                    );
                    events.push(EatPelletEvent::new(new_pos));
                }
                proof {
                    kk = kk + 1;
                    assert forall|x: int, y: int| m0.spec_in_bounds(x, y)
                        implies #[trigger] map_data.spec_tile(x, y) == (if (exists|j: int|
                        1 <= j <= kk && #[trigger] spec_offset(a, d, j) == (Vec2i {
                            x: x as i32,
                            y: y as i32,
                        })) && m0.spec_tile(x, y) is Pellet {
                        TileType::Empty
                    } else {
                        m0.spec_tile(x, y)
                    }) by {
                        let c = Vec2i { x: x as i32, y: y as i32 };
                        if c == new_pos {
                            assert(spec_offset(a, d, kk) == c);
                        } else {
                            assert(map_data.spec_tile(x, y) == pre_map.spec_tile(x, y));
                            assert forall|j: int|
                                1 <= j <= kk && #[trigger] spec_offset(a, d, j) == c implies j
                                < kk by {
                                if j == kk {
                                    assert(spec_offset(a, d, kk) == new_pos);
                                }
                            }
                        }
                    }
                    assert(events@ =~= spec_eaten_events(m0, a, d, kk));
                }
            },
            None => {
                proof {
                    assert((kk + 1) * d.x == kk * d.x + d.x && (kk + 1) * d.y == kk * d.y + d.y)
                        by (nonlinear_arith);
                    // Pellet clearing never creates a wall: a cell open in
                    // the current map was open at the start, so the failed
                    // attempt pins a wall (or no intent) in `m0` too.
                    if kk == t && d != (Vec2i { x: 0, y: 0 }) && player.movement.is_moving {
                        assert(!pre_map.open_cell(spec_offset(a, d, kk + 1)));
                        assert(!m0.open_cell(spec_offset(a, d, kk + 1)));
                    }
                }
            },
        }
        t = t + 1;
    }
    proof {
        assert(spec_player_commit_at(
            *old(player),
            *player,
            m0,
            *map_data,
            delta,
            events@,
            kk,
        ));
    }
    events
}


/// Turns pressed direction keys into a movement intent: with exactly one
/// direction pressed whose next cell is open, the player heads that way
/// (and starts moving); any other combination leaves the movement intent
/// unchanged.
pub fn handle_player_input(
    player: &mut Player,
    map_data: &MapData,
    up: bool,
    down: bool,
    left: bool,
    right: bool,
)
    requires
        old(player).wf(),
        map_data.wf(),
        map_data.contains_pos(old(player).tile_pos),
    ensures
        final(player).wf(),
        final(player).tile_pos == old(player).tile_pos,
        ({
            let dir = Vec2i {
                x: ((if right { 1int } else { 0int }) - (if left { 1int } else { 0int })) as i32,
                y: ((if down { 1int } else { 0int }) - (if up { 1int } else { 0int })) as i32,
            };
            if crate::vec2::is_unit_dir(dir) && map_data.open_cell(
                crate::vec2::spec_step(old(player).tile_pos, dir),
            ) {
                final(player).movement == (crate::movement::Movement {
                    direction: dir,
                    is_moving: true,
                    ..old(player).movement
                })
            } else {
                final(player).movement == old(player).movement
            }
        }),
{
    let mut dx: i32 = 0;
    let mut dy: i32 = 0;
    if up {
        dy = dy - 1;
    }
    if down {
        dy = dy + 1;
    }
    if left {
        dx = dx - 1;
    }
    if right {
        dx = dx + 1;
    }
    let dir = Vec2i { x: dx, y: dy };
    // Only a single-axis intent is a valid grid direction.
    let is_unit = (dx == 0) != (dy == 0);
    if is_unit {
        let next_pos = player.tile_pos.plus(dir);
        if crate::map::check_position(next_pos.x, next_pos.y, map_data.width, map_data.height)
            && !map_data.is_wall(next_pos.x as usize, next_pos.y as usize) {
            player.set_direction(dir);
        }
    }
}

} // verus!
