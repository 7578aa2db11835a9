//! The controlled agent: position, movement state, and wall-checked
//! stepping.

use vstd::prelude::*;
use crate::map::MapData;
use crate::movement::Movement;
use crate::movement::TryMove;
use crate::vec2::Vec2i;
use crate::vec2::is_unit_or_zero;
use crate::vec2::spec_step;

verus! {

/// The player's movement speed in ticks per second.
pub const PLAYER_SPEED: u32 = 6;

/// The player.
#[derive(Debug)]
pub struct Player {
    /// Current map tile position.
    pub tile_pos: Vec2i,
    /// Movement state.
    pub movement: Movement,
}

impl Player {
    pub open spec fn wf(&self) -> bool {
        self.movement.wf()
    }

    pub fn new(x: i32, y: i32) -> (r: Self)
        ensures
            r.wf(),
            r.tile_pos == (Vec2i { x, y }),
            r.movement.speed == PLAYER_SPEED,
            r.movement.direction == (Vec2i { x: 0, y: 0 }),
            !r.movement.is_moving,
            r.movement.accumulated_time == 0,
    {
        Player { tile_pos: Vec2i { x, y }, movement: Movement::new(PLAYER_SPEED, false) }
    }

    /// Sets the movement direction; the player starts moving.
    pub fn set_direction(&mut self, dir: Vec2i)
        requires
            old(self).wf(),
            is_unit_or_zero(dir),
        ensures
            final(self).wf(),
            final(self).tile_pos == old(self).tile_pos,
            final(self).movement == (Movement {
                direction: dir,
                is_moving: true,
                ..old(self).movement
            }),
    {
        self.movement.set_direction(dir);
    }
}

impl TryMove for Player {
    open spec fn movement_of(&self) -> Movement {
        self.movement
    }

    open spec fn pos_of(&self) -> Vec2i {
        self.tile_pos
    }

    open spec fn spec_stopped(&self) -> Self {
        Player {
            tile_pos: self.tile_pos,
            movement: Movement { is_moving: false, accumulated_time: 0, ..self.movement },
        }
    }

    fn try_move(&mut self, map_data: &MapData) -> (r: Option<Vec2i>) {
        if self.movement.direction == Vec2i::zero() || !self.movement.is_moving {
            return None;
        }
        let new_pos = self.tile_pos.plus(self.movement.direction);
        if !map_data.is_valid_position(new_pos.x, new_pos.y) || map_data.is_wall(
            new_pos.x as usize,
            new_pos.y as usize,
        ) {
            // Blocked by the map: come to a halt, dropping partial credit.
            self.movement.stop_moving();
            return None;
        }
        Some(new_pos)
    }
}

} // verus!
