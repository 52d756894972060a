use vstd::prelude::*;

verus! {

/// Width of the map, in tiles.
pub const MAP_WIDTH: usize = 80;

/// Height of the map, in tiles.
pub const MAP_HEIGHT: usize = 50;

/// Number of tiles on the map.
pub const MAP_TOTAL_DIMENSION: usize = MAP_WIDTH * MAP_HEIGHT;

/// Largest x coordinate on the map.
pub const COORDINATE_X: i32 = 79;

/// Largest y coordinate on the map.
pub const COORDINATE_Y: i32 = 49;

/// Number of candidate rooms drawn during generation.
pub const MAX_ROOMS: i32 = 30;

/// Smallest room side drawn (inclusive).
pub const MIN_SIZE_ROOM: i32 = 6;

/// Bound on room sides drawn (exclusive).
pub const MAX_SIZE_ROOM: i32 = 10;

/// Sight range of every viewshed.
pub const VISIBLE_TILES_RANGE: i32 = 8;

} // verus!
