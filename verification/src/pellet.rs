//! Pellets: the collectibles on the grid, general or power.

use vstd::prelude::*;
use crate::vec2::Vec2i;

verus! {

/// The kind of a pellet.
#[derive(Debug, Clone, Copy, PartialEq, Eq, Structural)]
pub enum PelletType {
    General,
    Power,
}

/// A pellet on the grid.
#[derive(Debug)]
pub struct Pellet {
    pub position: Vec2i,
    pub pellet_type: PelletType,
}

impl Pellet {
    pub fn new(position: Vec2i, pellet_type: PelletType) -> (r: Self)
        ensures
            r.position == position,
            r.pellet_type == pellet_type,
    {
        Pellet { position, pellet_type }
    }
}

/// Whether `(x, y)` is one of the four fixed power-pellet cells, one near
/// each corner of the standard level.
pub open spec fn spec_is_power_pellet(x: int, y: int) -> bool {
    ||| (x == 1 && y == 3)
    ||| (x == 26 && y == 3)
    ||| (x == 1 && y == 23)
    ||| (x == 26 && y == 23)
}

/// Whether the cell holds a power pellet.
pub fn is_power_pellet(x: usize, y: usize) -> (r: bool)
    ensures
        r == spec_is_power_pellet(x as int, y as int),
{
    (x == 1 && y == 3) || (x == 26 && y == 3) || (x == 1 && y == 23) || (x == 26 && y == 23)
}

} // verus!
