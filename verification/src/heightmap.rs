//! The grid behind a tile's terrain: which block a vertex belongs to,
//! which side of a cliff it lies on, and how the vertices make triangles.
//! Heights and colours are not computed here.

use crate::coords::{IVec2, LOW_DEF};
use vstd::prelude::*;

verus! {

/// Vertices along one side of a tile's terrain, less one.
pub const HIGH_DEF: u32 = 40;

/// Vertices along one side of a block, less one.
pub const DETAIL: u32 = 8;

/// Elevations are counted in thousandths. Below this one lies water.
pub const WATER_LEVEL: i32 = -10_000;

/// Above this elevation the ground is a plateau.
pub const PLATEAU_LEVEL: i32 = 250;

/// Flat ground is drawn this many times lower than its elevation.
pub const FLATTENING: i32 = 9;

/// How the height of a vertex is made.
#[derive(Debug, Clone, Copy, PartialEq, Eq, Structural)]
pub enum Border {
    /// The terrain's own height, flattened.
    Flat,
    /// The height of the plateau that the block carries.
    Raised,
}

/// Where a vertex of the terrain lies.
#[derive(Debug, Clone, Copy, PartialEq, Eq, Structural)]
pub struct GridVertex {
    /// The block that holds the vertex.
    pub block: IVec2,
    /// Twice the offset of the vertex from the middle of its block, in
    /// steps of the grid: an odd number on each axis.
    pub offset: IVec2,
    /// Whether the vertex stands on the corner its block is named by:
    /// there the block's colours and its place in the obstacle map are
    /// taken.
    pub on_lattice: bool,
}

/// The neighbours of a block that are obstacles, as a sum: 1 for the one
/// above, 2 for the one to the left, 4 for the one below, 8 for the one to
/// the right. A block that is no obstacle itself has kind 0.
pub open spec fn kind_of(center: bool, top: bool, left: bool, bottom: bool, right: bool) -> int {
    if center {
        (if top { 1int } else { 0 }) + (if left { 2int } else { 0 }) + (if bottom { 4int } else { 0 })
            + (if right { 8int } else { 0 })
    } else {
        0
    }
}

/// A block is an obstacle where its elevation leaves the band from the
/// water to the plateau.
pub open spec fn obstacle_elevation(elevation: int) -> bool {
    !(WATER_LEVEL <= elevation <= PLATEAU_LEVEL)
}

/// Whether a block enters the obstacle map of its tile: it stands higher
/// than the plateau once it is drawn. A block of kind 0 is drawn flat, so
/// it must rise `FLATTENING` times as high; any other is drawn as a
/// plateau if it is above the plateau level, and at its own elevation if
/// not.
pub open spec fn mountain_block(kind: int, elevation: int) -> bool {
    if kind > 0 {
        elevation > PLATEAU_LEVEL
    } else {
        elevation > FLATTENING * PLATEAU_LEVEL
    }
}

/// The treatment of a vertex in a block of the given kind. A block with no
/// obstacle around it stays flat; one in the corner of two obstacles is
/// raised on their side of its diagonal; any other is raised throughout.
pub open spec fn border_of(kind: int, x: int, y: int) -> Border {
    if kind == 0 {
        Border::Flat
    } else if kind == 3 {
        if x < -y { Border::Raised } else { Border::Flat }
    } else if kind == 6 {
        if x < y { Border::Raised } else { Border::Flat }
    } else if kind == 9 {
        if x > y { Border::Raised } else { Border::Flat }
    } else if kind == 12 {
        if -x < y { Border::Raised } else { Border::Flat }
    } else {
        Border::Raised
    }
}

/// Whether a block of this elevation is an obstacle.
pub fn is_obstacle(elevation: i32) -> (blocked: bool)
    ensures
        blocked == obstacle_elevation(elevation as int),
{
    !(WATER_LEVEL <= elevation && elevation <= PLATEAU_LEVEL)
}

/// Whether a block of this kind and elevation enters the obstacle map.
pub fn is_mountain(kind: u8, elevation: i32) -> (mountain: bool)
    ensures
        mountain == mountain_block(kind as int, elevation as int),
{
    if kind > 0 {
        elevation > PLATEAU_LEVEL
    } else {
        elevation > FLATTENING * PLATEAU_LEVEL
    }
}

/// A block that enters the obstacle map is an obstacle, and stands above
/// the plateau.
pub proof fn lemma_mountains_are_obstacles(kind: int, elevation: int)
    requires
        0 <= kind,
        mountain_block(kind, elevation),
    ensures
        obstacle_elevation(elevation),
        elevation > PLATEAU_LEVEL,
{
}

/// The kind of a block from whether it and its four neighbours are
/// obstacles.
pub fn border_kind(center: bool, top: bool, left: bool, bottom: bool, right: bool) -> (kind: u8)
    ensures
        kind == kind_of(center, top, left, bottom, right),
        kind <= 15,
{
    if !center {
        return 0;
    }
    let mut kind: u8 = 0;
    if top {
        kind = kind + 1;
    }
    if left {
        kind = kind + 2;
    }
    if bottom {
        kind = kind + 4;
    }
    if right {
        kind = kind + 8;
    }
    kind
}

/// The treatment of the vertex at `offset` in a block of the given kind.
pub fn pretty_border(kind: u8, offset: IVec2) -> (border: Border)
    ensures
        border == border_of(kind as int, offset.x as int, offset.y as int),
{
    let x: i64 = offset.x as i64;
    let y: i64 = offset.y as i64;
    if kind == 0 {
        Border::Flat
    } else if kind == 3 {
        if x < -y { Border::Raised } else { Border::Flat }
    } else if kind == 6 {
        if x < y { Border::Raised } else { Border::Flat }
    } else if kind == 9 {
        if x > y { Border::Raised } else { Border::Flat }
    } else if kind == 12 {
        if -x < y { Border::Raised } else { Border::Flat }
    } else {
        Border::Raised
    }
}

/// Where the vertex `(i, j)` of a tile's terrain lies.
pub fn grid_vertex(i: u32, j: u32) -> (vertex: GridVertex)
    requires
        i <= HIGH_DEF,
        j <= HIGH_DEF,
    ensures
        vertex.block.x == i / DETAIL,
        vertex.block.y == j / DETAIL,
        vertex.offset.x == 2 * (i % DETAIL) - (DETAIL - 1),
        vertex.offset.y == 2 * (j % DETAIL) - (DETAIL - 1),
        vertex.on_lattice == (i % DETAIL == 0 && j % DETAIL == 0),
        0 <= vertex.block.x <= LOW_DEF,
        0 <= vertex.block.y <= LOW_DEF,
{
    let block = IVec2::new((i / DETAIL) as i32, (j / DETAIL) as i32);
    let offset = IVec2::new(
        2 * ((i % DETAIL) as i32) - (DETAIL as i32 - 1),
        2 * ((j % DETAIL) as i32) - (DETAIL as i32 - 1),
    );
    GridVertex { block, offset, on_lattice: i % DETAIL == 0 && j % DETAIL == 0 }
}

/// The vertex at place `k` of the triangle list of a grid of `details` by
/// `details` cells. Each cell gives two triangles, cut along the same
/// diagonal: six places, cell after cell, column by column.
pub open spec fn triangle_vertex(details: int, k: int) -> int {
    let cell = k / 6;
    let corner = k % 6;
    let i = cell / details;
    let j = cell % details;
    let across: int = if corner == 1 || corner == 4 || corner == 5 { 1 } else { 0 };
    let down: int = if corner == 2 || corner == 3 || corner == 5 { 1 } else { 0 };
    (i + across) + (details + 1) * (j + down)
}

/// Whether the triangle list of a grid of `details` by `details` cells can
/// be held: its vertices are numbered in 32 bits, and its length is a
/// `usize`. A grid of no more than 16384 cells a side always can.
pub open spec fn grid_fits(details: u32) -> bool {
    ||| details <= 16384
    ||| ((details + 1) * (details + 1) <= u32::MAX && 6 * details * details <= usize::MAX)
}

/// Whether the triangle list of a grid of this size can be held.
pub fn fits_grid(details: u32) -> (fits: bool)
    ensures
        fits == grid_fits(details),
{
    if details <= 16384 {
        return true;
    }
    if details >= 65535 {
        assert((details + 1) * (details + 1) > u32::MAX) by (nonlinear_arith)
            requires
                details >= 65535,
        ;
        return false;
    }
    let d: u128 = details as u128;
    assert((d + 1) * (d + 1) <= 0xffff_ffff && 6 * d * d <= 0xffff_ffff_ffff && 6 * d * d == 6 * (d
        * d)) by (nonlinear_arith)
        requires
            0 <= d < 65535,
    ;
    6 * (d * d) <= usize::MAX as u128
}

/// The triangle list of a grid of `details` by `details` cells, over
/// vertices numbered row by row.
pub fn grid_indices(details: u32) -> (indices: Vec<u32>)
    requires
        grid_fits(details),
    ensures
        indices@.len() == 6 * details * details,
        forall|k: int|
            0 <= k < indices@.len() ==> #[trigger] indices@[k] == triangle_vertex(details as int, k),
{
    let mut indices: Vec<u32> = Vec::new();
    let d: u64 = details as u64;
    assert((d + 1) * (d + 1) <= 0xffff_ffff && 6 * d * d <= usize::MAX) by (nonlinear_arith)
        requires
            d <= 16384 || ((d + 1) * (d + 1) <= 0xffff_ffff && 6 * d * d <= usize::MAX),
            0 <= d,
            usize::MAX >= 0xffff_ffff,
    ;
    assert(d * d <= 0xffff_ffff && 6 * (d * d) == 6 * d * d) by (nonlinear_arith)
        requires
            (d + 1) * (d + 1) <= 0xffff_ffff,
            0 <= d,
    ;
    let cells: u64 = d * d;
    let mut cell: u64 = 0;
    while cell < cells
        invariant
            d == details,
            cells == d * d,
            cell <= cells,
            (d + 1) * (d + 1) <= u32::MAX,
            6 * cells <= usize::MAX,
            indices@.len() == 6 * cell,
            forall|k: int|
                0 <= k < indices@.len() ==> #[trigger] indices@[k] == triangle_vertex(d as int, k),
        decreases cells - cell,
    {
        let i: u64 = cell / d;
        let j: u64 = cell % d;
        proof {
            vstd::arithmetic::div_mod::lemma_fundamental_div_mod(cell as int, d as int);
            assert(i < d) by (nonlinear_arith)
                requires
                    cell == d * i + j,
                    0 <= j,
                    cell < d * d,
                    0 < d,
            ;
            assert((i + 1) + (d + 1) * (j + 1) < (d + 1) * (d + 1) && 0 <= (d + 1) * j <= (d + 1)
                * (j + 1)) by (nonlinear_arith)
                requires
                    0 <= i < d,
                    0 <= j < d,
            ;
        }
        let row: u64 = (d + 1) * j;
        let next_row: u64 = (d + 1) * (j + 1);
        let ghost early = indices@;
        indices.push((i + row) as u32);
        indices.push((i + 1 + row) as u32);
        indices.push((i + next_row) as u32);
        indices.push((i + next_row) as u32);
        indices.push((i + 1 + row) as u32);
        indices.push((i + 1 + next_row) as u32);
        proof {
            assert forall|k: int| 0 <= k < indices@.len() implies #[trigger] indices@[k]
                == triangle_vertex(d as int, k) by {
                if k < early.len() {
                    assert(indices@[k] == early[k]);
                } else {
                    assert(k / 6 == cell && k % 6 == k - 6 * cell);
                }
            }
        }
        cell = cell + 1;
    }
    indices
}

/// Blocks along one side of the lattice of elevations that a tile is
/// classified from: the blocks of the tile's corners, `0` to `LOW_DEF`,
/// and one more on either side.
pub const LATTICE: usize = 8;

/// Elevations in a lattice: one for each block.
pub const LATTICE_SIZE: usize = 64;

/// Whether `block` names a corner of a lot of the tile.
pub open spec fn is_corner_block(block: IVec2) -> bool {
    0 <= block.x <= LOW_DEF && 0 <= block.y <= LOW_DEF
}

/// The elevation of the block `(bx, by)` in a lattice, which holds the
/// blocks column by column from `(-1, -1)`.
pub open spec fn elevation_at(elevations: Seq<i32>, bx: int, by: int) -> int {
    elevations[(bx + 1) * LATTICE + (by + 1)] as int
}

/// The kind of the block `(bx, by)`: its neighbour above is the block
/// before it in its column, its neighbour to the left the same block of
/// the column before.
pub open spec fn kind_at(elevations: Seq<i32>, bx: int, by: int) -> int {
    kind_of(
        obstacle_elevation(elevation_at(elevations, bx, by)),
        obstacle_elevation(elevation_at(elevations, bx, by - 1)),
        obstacle_elevation(elevation_at(elevations, bx - 1, by)),
        obstacle_elevation(elevation_at(elevations, bx, by + 1)),
        obstacle_elevation(elevation_at(elevations, bx + 1, by)),
    )
}

/// Whether the block `(bx, by)` enters the obstacle map.
pub open spec fn mountain_at(elevations: Seq<i32>, bx: int, by: int) -> bool {
    mountain_block(kind_at(elevations, bx, by), elevation_at(elevations, bx, by))
}

/// Blocks in the order of their columns, and in a column from the top.
pub open spec fn in_column_order(blocks: Seq<IVec2>) -> bool {
    forall|a: int, b: int|
        0 <= a < b < blocks.len() ==> (#[trigger] blocks[a]).x * LATTICE + blocks[a].y < (
        #[trigger] blocks[b]).x * LATTICE + blocks[b].y
}

/// `mountains` is the obstacle map of the tile that `elevations` are
/// sampled for: it lists the corner blocks that are mountains, each once,
/// column by column.
pub open spec fn is_obstacle_map(elevations: Seq<i32>, mountains: Seq<IVec2>) -> bool {
    &&& forall|k: int|
        0 <= k < mountains.len() ==> is_corner_block(#[trigger] mountains[k]) && mountain_at(
            elevations,
            mountains[k].x as int,
            mountains[k].y as int,
        )
    &&& forall|block: IVec2|
        is_corner_block(block) && #[trigger] mountain_at(elevations, block.x as int, block.y as int)
            ==> mountains.contains(block)
    &&& in_column_order(mountains)
}

proof fn lemma_same_blocks_in_order(a: Seq<IVec2>, b: Seq<IVec2>)
    requires
        in_column_order(a),
        in_column_order(b),
        forall|k: int| 0 <= k < a.len() ==> is_corner_block(#[trigger] a[k]),
        forall|k: int| 0 <= k < b.len() ==> is_corner_block(#[trigger] b[k]),
        forall|block: IVec2| a.contains(block) <==> b.contains(block),
    ensures
        a == b,
    decreases a.len(),
{
    if a.len() == 0 {
        if b.len() > 0 {
            assert(b.contains(b[0]));
        }
        assert(a =~= b);
    } else {
        let top = a.last();
        assert(a.contains(top));
        let j = choose|j: int| 0 <= j < b.len() && b[j] == top;
        assert(b.contains(b.last()));
        let i = choose|i: int| 0 <= i < a.len() && a[i] == b.last();
        assert(b.last() == top);
        let a0 = a.drop_last();
        let b0 = b.drop_last();
        assert forall|block: IVec2| a0.contains(block) <==> b0.contains(block) by {
            if a0.contains(block) {
                let k = choose|k: int| 0 <= k < a0.len() && a0[k] == block;
                assert(a[k] == block);
                assert(a.contains(block));
                let n = choose|n: int| 0 <= n < b.len() && b[n] == block;
                assert(n < b.len() - 1);
                assert(b0[n] == block);
            }
            if b0.contains(block) {
                let k = choose|k: int| 0 <= k < b0.len() && b0[k] == block;
                assert(b[k] == block);
                assert(b.contains(block));
                let n = choose|n: int| 0 <= n < a.len() && a[n] == block;
                assert(n < a.len() - 1);
                assert(a0[n] == block);
            }
        }
        assert forall|k: int| 0 <= k < a0.len() implies is_corner_block(#[trigger] a0[k]) by {
            assert(a0[k] == a[k]);
        }
        assert forall|k: int| 0 <= k < b0.len() implies is_corner_block(#[trigger] b0[k]) by {
            assert(b0[k] == b[k]);
        }
        assert(in_column_order(a0)) by {
            assert forall|x: int, y: int| 0 <= x < y < a0.len() implies (#[trigger] a0[x]).x
                * LATTICE + a0[x].y < (#[trigger] a0[y]).x * LATTICE + a0[y].y by {
                assert(a0[x] == a[x] && a0[y] == a[y]);
            }
        }
        assert(in_column_order(b0)) by {
            assert forall|x: int, y: int| 0 <= x < y < b0.len() implies (#[trigger] b0[x]).x
                * LATTICE + b0[x].y < (#[trigger] b0[y]).x * LATTICE + b0[y].y by {
                assert(b0[x] == b[x] && b0[y] == b[y]);
            }
        }
        lemma_same_blocks_in_order(a0, b0);
        assert(a =~= a0.push(top));
        assert(b =~= b0.push(top));
    }
}

/// The elevations of a tile determine its obstacle map: two obstacle maps
/// of the same elevations are the same list.
pub proof fn lemma_obstacle_map_is_determined(
    elevations: Seq<i32>,
    first: Seq<IVec2>,
    second: Seq<IVec2>,
)
    requires
        is_obstacle_map(elevations, first),
        is_obstacle_map(elevations, second),
    ensures
        first == second,
{
    assert forall|block: IVec2| first.contains(block) <==> second.contains(block) by {
        if first.contains(block) {
            let k = choose|k: int| 0 <= k < first.len() && first[k] == block;
            assert(is_corner_block(first[k]));
        }
        if second.contains(block) {
            let k = choose|k: int| 0 <= k < second.len() && second[k] == block;
            assert(is_corner_block(second[k]));
        }
    }
    lemma_same_blocks_in_order(first, second);
}

/// The kind of a block of a lattice of elevations.
pub fn block_kind(elevations: &Vec<i32>, block: IVec2) -> (kind: u8)
    requires
        elevations@.len() == LATTICE_SIZE,
        is_corner_block(block),
    ensures
        kind == kind_at(elevations@, block.x as int, block.y as int),
        kind <= 15,
{
    let at: usize = (block.x as usize + 1) * LATTICE + (block.y as usize + 1);
    border_kind(
        is_obstacle(elevations[at]),
        is_obstacle(elevations[at - 1]),
        is_obstacle(elevations[at - LATTICE]),
        is_obstacle(elevations[at + 1]),
        is_obstacle(elevations[at + LATTICE]),
    )
}

/// The obstacle map of a tile: the corner blocks that are mountains,
/// column by column.
pub fn simplified_map(elevations: &Vec<i32>) -> (mountains: Vec<IVec2>)
    requires
        elevations@.len() == LATTICE_SIZE,
    ensures
        is_obstacle_map(elevations@, mountains@),
{
    let mut mountains: Vec<IVec2> = Vec::new();
    let side: i32 = LOW_DEF as i32 + 1;
    let mut bx: i32 = 0;
    while bx < side
        invariant
            side == LOW_DEF + 1,
            0 <= bx <= side,
            elevations@.len() == LATTICE_SIZE,
            forall|k: int|
                0 <= k < mountains@.len() ==> is_corner_block(#[trigger] mountains@[k])
                    && mountains@[k].x < bx && mountain_at(
                    elevations@,
                    mountains@[k].x as int,
                    mountains@[k].y as int,
                ),
            forall|block: IVec2|
                is_corner_block(block) && block.x < bx && #[trigger] mountain_at(
                    elevations@,
                    block.x as int,
                    block.y as int,
                ) ==> mountains@.contains(block),
            forall|a: int, b: int|
                0 <= a < b < mountains@.len() ==> (#[trigger] mountains@[a]).x * LATTICE
                    + mountains@[a].y < (#[trigger] mountains@[b]).x * LATTICE + mountains@[b].y,
        decreases side - bx,
    {
        let mut by: i32 = 0;
        while by < side
            invariant
                side == LOW_DEF + 1,
                0 <= bx < side,
                0 <= by <= side,
                elevations@.len() == LATTICE_SIZE,
                forall|k: int|
                    0 <= k < mountains@.len() ==> is_corner_block(#[trigger] mountains@[k]) && (
                    mountains@[k].x < bx || (mountains@[k].x == bx && mountains@[k].y < by))
                        && mountain_at(
                        elevations@,
                        mountains@[k].x as int,
                        mountains@[k].y as int,
                    ),
                forall|block: IVec2|
                    is_corner_block(block) && (block.x < bx || (block.x == bx && block.y < by))
                        && #[trigger] mountain_at(elevations@, block.x as int, block.y as int)
                        ==> mountains@.contains(block),
                forall|a: int, b: int|
                    0 <= a < b < mountains@.len() ==> (#[trigger] mountains@[a]).x * LATTICE
                        + mountains@[a].y < (#[trigger] mountains@[b]).x * LATTICE
                        + mountains@[b].y,
            decreases side - by,
        {
            let block = IVec2::new(bx, by);
            let kind = block_kind(elevations, block);
            let at: usize = (bx as usize + 1) * LATTICE + (by as usize + 1);
            let ghost early = mountains@;
            if is_mountain(kind, elevations[at]) {
                mountains.push(block);
                proof {
                    assert(mountains@[early.len() as int] == block);
                    assert forall|other: IVec2|
                        is_corner_block(other) && (other.x < bx || (other.x == bx && other.y < by
                            + 1)) && #[trigger] mountain_at(
                            elevations@,
                            other.x as int,
                            other.y as int,
                        ) implies mountains@.contains(other) by {
                        if other == block {
                        } else {
                            assert(early.contains(other));
                            let k = choose|k: int| 0 <= k < early.len() && early[k] == other;
                            assert(mountains@[k] == other);
                        }
                    }
                }
            } else {
                proof {
                    assert forall|other: IVec2|
                        is_corner_block(other) && (other.x < bx || (other.x == bx && other.y < by
                            + 1)) && #[trigger] mountain_at(
                            elevations@,
                            other.x as int,
                            other.y as int,
                        ) implies mountains@.contains(other) by {
                        assert(other != block);
                    }
                }
            }
            by = by + 1;
        }
        bx = bx + 1;
    }
    mountains
}

} // verus!
