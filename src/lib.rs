//! A streamed voxel terrain seen from above: a tile table, chunks generated
//! from a height function, a world that keeps the chunks around the player
//! resident, and a projection of the terrain onto a character screen.
use vstd::prelude::*;

pub mod render;
pub mod tile;
pub mod world;

verus! {

/// The viewer: a position in world coordinates and the glyph drawn for it.
#[derive(Clone, Copy, PartialEq, Eq, Debug, Structural)]
pub struct Player {
    pub sprite: char,
    pub x: i32,
    pub y: i32,
    pub z: i32,
}

impl Player {
    pub open spec fn new_spec(x: i32, y: i32, z: i32, sprite: char) -> Player {
        Player { sprite, x, y, z }
    }

    pub fn new(x: i32, y: i32, z: i32, sprite: char) -> (r: Player)
        ensures
            r == Player::new_spec(x, y, z, sprite),
    {
        Player { sprite, x, y, z }
    }
}

} // verus!
