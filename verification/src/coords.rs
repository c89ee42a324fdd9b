//! Integer coordinates: tiles, sub-lots, and world positions in fixed point.

use vstd::prelude::*;

verus! {

/// Sub-lots along one side of a tile.
pub const LOW_DEF: u32 = 5;

/// World units along one side of a tile. A world position is an integer
/// count of these units; the tile `(0, 0)` is centred on the origin.
pub const TILE_UNITS: i64 = 1000;

/// World units along one side of a sub-lot.
pub const LOT_UNITS: i64 = 200;

/// A pair of integers: a tile `(x, z)` or a sub-lot `(i, j)`.
#[derive(Debug, Clone, Copy, PartialEq, Eq, Hash, Structural)]
pub struct IVec2 {
    pub x: i32,
    pub y: i32,
}

impl IVec2 {
    /// The pair `(x, y)`.
    pub fn new(x: i32, y: i32) -> (v: IVec2)
        ensures
            v.x == x,
            v.y == y,
    {
        IVec2 { x, y }
    }

    /// Both components lie in `[0, def)`: the pair names a sub-lot of a
    /// tile cut into `def` by `def` lots.
    pub open spec fn is_lot(self, def: int) -> bool {
        0 <= self.x < def && 0 <= self.y < def
    }
}

/// A position in the world, in units of which a tile holds `TILE_UNITS`.
#[derive(Debug, Clone, Copy, PartialEq, Eq, Hash, Structural)]
pub struct WorldPosition {
    pub x: i64,
    pub y: i64,
}

/// The tile column that holds the world abscissa `x`. Column `c` spans the
/// units from `1000 * c - 500`, excluded, to `1000 * c + 500`, included:
/// lots are counted against the x axis, so a shared border belongs to the
/// column below it.
pub open spec fn tile_of_x(x: int) -> int {
    -((500 - x) / 1000)
}

/// The tile row that holds the world ordinate `y`. Row `r` spans the units
/// from `1000 * r - 500`, included, to `1000 * r + 500`, excluded.
pub open spec fn tile_of_y(y: int) -> int {
    (y + 500) / 1000
}

/// The sub-lot column of `x` inside its tile, counted against the axis.
pub open spec fn lot_of_x(x: int) -> int {
    (500 - (x - 1000 * tile_of_x(x))) / 200
}

/// The sub-lot row of `y` inside its tile.
pub open spec fn lot_of_y(y: int) -> int {
    (y - 1000 * tile_of_y(y) + 500) / 200
}

/// The abscissa of the centre of sub-lot column `i` of tile column `tx`.
pub open spec fn world_x_of(tx: int, i: int) -> int {
    1000 * tx - 200 * i + 400
}

/// The ordinate of the centre of sub-lot row `j` of tile row `tz`.
pub open spec fn world_y_of(tz: int, j: int) -> int {
    1000 * tz + 200 * j - 400
}

/// World positions whose tile fits the tile coordinates.
pub open spec fn world_in_range(world: WorldPosition) -> bool {
    &&& -2_000_000_000_000 <= world.x <= 2_000_000_000_000
    &&& -2_000_000_000_000 <= world.y <= 2_000_000_000_000
}

impl WorldPosition {
    /// Whether the tile that holds this position fits the tile
    /// coordinates.
    pub fn in_range(&self) -> (fits: bool)
        ensures
            fits == world_in_range(*self),
    {
        -2_000_000_000_000 <= self.x && self.x <= 2_000_000_000_000 && -2_000_000_000_000 <= self.y
            && self.y <= 2_000_000_000_000
    }
}

/// The tile and sub-lot that hold a world position.
pub fn world_to_map(world: WorldPosition) -> (map: (IVec2, IVec2))
    requires
        world_in_range(world),
    ensures
        map.0.x == tile_of_x(world.x as int),
        map.0.y == tile_of_y(world.y as int),
        map.1.x == lot_of_x(world.x as int),
        map.1.y == lot_of_y(world.y as int),
        map.1.is_lot(LOW_DEF as int),
{
    let shift: i64 = 2_000_000_000_000;
    let tx: i64 = 2_000_000_000 - (500 - world.x + shift) / 1000;
    let tz: i64 = (world.y + 500 + shift) / 1000 - 2_000_000_000;
    let i: i64 = (500 - (world.x - 1000 * tx)) / 200;
    let j: i64 = (world.y - 1000 * tz + 500) / 200;
    (IVec2::new(tx as i32, tz as i32), IVec2::new(i as i32, j as i32))
}

/// The world position of the centre of a sub-lot.
pub fn map_to_world(map: (IVec2, IVec2)) -> (world: WorldPosition)
    ensures
        world.x == world_x_of(map.0.x as int, map.1.x as int),
        world.y == world_y_of(map.0.y as int, map.1.y as int),
{
    let x: i64 = 1000 * (map.0.x as i64) - 200 * (map.1.x as i64) + 400;
    let y: i64 = 1000 * (map.0.y as i64) + 200 * (map.1.y as i64) - 400;
    WorldPosition { x, y }
}

/// From a sub-lot to the world and back gives the same tile and sub-lot.
pub proof fn lemma_map_world_map(tile: IVec2, lot: IVec2)
    requires
        lot.is_lot(LOW_DEF as int),
    ensures
        tile_of_x(world_x_of(tile.x as int, lot.x as int)) == tile.x,
        lot_of_x(world_x_of(tile.x as int, lot.x as int)) == lot.x,
        tile_of_y(world_y_of(tile.y as int, lot.y as int)) == tile.y,
        lot_of_y(world_y_of(tile.y as int, lot.y as int)) == lot.y,
{
}

/// From the world to a sub-lot and back moves a position by at most half a
/// sub-lot on each axis, and not at all when it is the centre of a sub-lot.
pub proof fn lemma_world_map_world(x: int, y: int)
    ensures
        -100 < x - world_x_of(tile_of_x(x), lot_of_x(x)) <= 100,
        -100 <= y - world_y_of(tile_of_y(y), lot_of_y(y)) < 100,
        0 <= lot_of_x(x) < LOW_DEF,
        0 <= lot_of_y(y) < LOW_DEF,
        (x - 400) % 200 == 0 ==> world_x_of(tile_of_x(x), lot_of_x(x)) == x,
        (y + 400) % 200 == 0 ==> world_y_of(tile_of_y(y), lot_of_y(y)) == y,
{
}

/// Where the cursor points: a sub-lot, and the centre of that sub-lot in
/// the world.
#[derive(Debug, Clone, Copy, PartialEq, Eq, Structural)]
pub struct CursorPosition {
    pub world: WorldPosition,
    pub map: IVec2,
    pub lot: IVec2,
}

impl CursorPosition {
    /// The cursor for a point of the ground: it snaps to the centre of the
    /// sub-lot that holds the point.
    pub fn at(point: WorldPosition) -> (cursor: CursorPosition)
        requires
            world_in_range(point),
        ensures
            cursor.map.x == tile_of_x(point.x as int),
            cursor.map.y == tile_of_y(point.y as int),
            cursor.lot.x == lot_of_x(point.x as int),
            cursor.lot.y == lot_of_y(point.y as int),
            cursor.lot.is_lot(LOW_DEF as int),
            cursor.world.x == world_x_of(cursor.map.x as int, cursor.lot.x as int),
            cursor.world.y == world_y_of(cursor.map.y as int, cursor.lot.y as int),
            -100 < point.x - cursor.world.x <= 100,
            -100 <= point.y - cursor.world.y < 100,
    {
        let (map, lot) = world_to_map(point);
        proof {
            lemma_world_map_world(point.x as int, point.y as int);
        }
        CursorPosition { world: map_to_world((map, lot)), map, lot }
    }
}

/// Where a sub-lot lies in its tile, from the middle of the tile, in
/// sub-lots: against the x axis, along the y axis.
pub fn local_offset(lot: IVec2) -> (offset: IVec2)
    requires
        lot.is_lot(LOW_DEF as int),
    ensures
        offset.x == 2 - lot.x,
        offset.y == lot.y - 2,
{
    let middle: i32 = (LOW_DEF / 2) as i32;
    IVec2::new(-(lot.x - middle), lot.y - middle)
}

} // verus!
