//! Gameplay events exchanged with the driver.

use vstd::prelude::*;
use crate::pellet::PelletType;
use crate::pellet::spec_is_power_pellet;
use crate::pellet::is_power_pellet;
use crate::vec2::Vec2i;

verus! {

/// A pellet was eaten at a cell.
#[derive(Debug)]
pub struct EatPelletEvent {
    /// The cell of the eaten pellet.
    pub position: Vec2i,
    /// Its kind, derived from the fixed power-pellet cells.
    pub pellet_type: PelletType,
}

impl EatPelletEvent {
    pub fn new(pos: Vec2i) -> (r: Self)
        requires
            pos.x >= 0,
            pos.y >= 0,
        ensures
            r.position == pos,
            r.pellet_type == (if spec_is_power_pellet(pos.x as int, pos.y as int) {
                PelletType::Power
            } else {
                PelletType::General
            }),
    {
        EatPelletEvent {
            position: pos,
            pellet_type: if is_power_pellet(pos.x as usize, pos.y as usize) {
                PelletType::Power
            } else {
                PelletType::General
            },
        }
    }
}

} // verus!
