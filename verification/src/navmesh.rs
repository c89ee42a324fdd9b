//! The navigation mesh: one vertex and one polygon for each sub-lot of a
//! window of tiles around the origin.

use crate::coords::{IVec2, LOW_DEF};
use crate::occupancy::{lot_key, traversable, LotKey, OccupancyMap, Occupying};
use crate::terra::Plane;
use vstd::prelude::*;

verus! {

/// Half the side of the playing field, in tiles.
pub const BORDER: isize = 15;

/// A window of tiles around the origin, each cut into `def` by `def` lots.
pub struct Window {
    pub half_width: int,
    pub half_height: int,
    pub def: int,
}

impl Window {
    /// The half sizes are not negative, and a tile has lots.
    pub open spec fn wf(self) -> bool {
        0 <= self.half_width && 0 <= self.half_height && 0 < self.def
    }

    /// Lots along one row of the window.
    pub open spec fn stride(self) -> int {
        (2 * self.half_width + 1) * self.def
    }

    /// Rows of lots in the window.
    pub open spec fn rows(self) -> int {
        (2 * self.half_height + 1) * self.def
    }

    /// Lots in the window.
    pub open spec fn count(self) -> int {
        self.stride() * self.rows()
    }

    /// Whether the numbers of the lots fit in 31 bits. A window that goes
    /// no more than 1023 tiles from the origin, with no more than 16 lots
    /// to the side of a tile, always does.
    pub open spec fn fits(self) -> bool {
        ||| (self.half_width <= 1023 && self.half_height <= 1023 && self.def <= 16)
        ||| self.count() <= i32::MAX
    }

    /// Whether the tile `(tx, tz)` lies in the window.
    pub open spec fn holds_tile(self, tx: int, tz: int) -> bool {
        -self.half_width <= tx <= self.half_width && -self.half_height <= tz <= self.half_height
    }

    /// Whether `cell` is a lot of a tile of the window.
    pub open spec fn holds(self, cell: Cell) -> bool {
        self.holds_tile(cell.tx, cell.tz) && 0 <= cell.i < self.def && 0 <= cell.j < self.def
    }

    /// The lot's column in the window, counted against the x axis.
    pub open spec fn column(self, cell: Cell) -> int {
        cell.i - self.def * cell.tx + self.def * self.half_width
    }

    /// The lot's row in the window.
    pub open spec fn row(self, cell: Cell) -> int {
        cell.j + self.def * cell.tz + self.def * self.half_height
    }

    /// The number of a lot: rows follow one another, each `stride` long.
    pub open spec fn polygon_id(self, cell: Cell) -> int {
        self.column(cell) + self.row(cell) * self.stride()
    }

    /// The lot that has the number `id`.
    pub open spec fn cell_of(self, id: int) -> Cell {
        let column = id % self.stride();
        let row = id / self.stride();
        Cell {
            tx: self.half_width - column / self.def,
            tz: row / self.def - self.half_height,
            i: column % self.def,
            j: row % self.def,
        }
    }
}

/// A sub-lot by its tile `(tx, tz)` and its place `(i, j)` in the tile.
pub struct Cell {
    pub tx: int,
    pub tz: int,
    pub i: int,
    pub j: int,
}

/// The lot `lot` of the tile `tile`.
pub open spec fn cell(tile: IVec2, lot: IVec2) -> Cell {
    Cell { tx: tile.x as int, tz: tile.y as int, i: lot.x as int, j: lot.y as int }
}

/// The window that reaches `half_width` tiles from the origin along x and
/// `half_height` tiles along z, with tiles of `def` by `def` lots.
pub open spec fn window(half_width: int, half_height: int, def: int) -> Window {
    Window { half_width, half_height, def }
}

proof fn lemma_columns_and_rows(w: Window, c: Cell)
    requires
        w.wf(),
        w.holds(c),
    ensures
        0 <= w.column(c) < w.stride(),
        0 <= w.row(c) < w.rows(),
        w.column(c) / w.def == w.half_width - c.tx,
        w.column(c) % w.def == c.i,
        w.row(c) / w.def == c.tz + w.half_height,
        w.row(c) % w.def == c.j,
{
    let d = w.def;
    let a = w.half_width - c.tx;
    let b = c.tz + w.half_height;
    assert(w.column(c) == d * a + c.i) by (nonlinear_arith)
        requires
            w.column(c) == c.i - d * c.tx + d * w.half_width,
            a == w.half_width - c.tx,
    ;
    assert(w.row(c) == d * b + c.j) by (nonlinear_arith)
        requires
            w.row(c) == c.j + d * c.tz + d * w.half_height,
            b == c.tz + w.half_height,
    ;
    vstd::arithmetic::div_mod::lemma_fundamental_div_mod_converse(w.column(c), d, a, c.i);
    vstd::arithmetic::div_mod::lemma_fundamental_div_mod_converse(w.row(c), d, b, c.j);
    assert(d * a + c.i < (2 * w.half_width + 1) * d) by (nonlinear_arith)
        requires
            0 <= a <= 2 * w.half_width,
            0 <= c.i < d,
    ;
    assert(d * b + c.j < (2 * w.half_height + 1) * d) by (nonlinear_arith)
        requires
            0 <= b <= 2 * w.half_height,
            0 <= c.j < d,
    ;
}

/// Every lot of the window has a number below the count of lots.
pub proof fn lemma_polygon_id_in_range(w: Window, c: Cell)
    requires
        w.wf(),
        w.holds(c),
    ensures
        0 <= w.polygon_id(c) < w.count(),
        w.cell_of(w.polygon_id(c)) == c,
{
    lemma_columns_and_rows(w, c);
    let s = w.stride();
    let col = w.column(c);
    let row = w.row(c);
    assert(0 < s) by (nonlinear_arith)
        requires
            s == (2 * w.half_width + 1) * w.def,
            0 <= w.half_width,
            0 < w.def,
    ;
    assert(0 <= col + row * s < s * w.rows()) by (nonlinear_arith)
        requires
            0 <= col < s,
            0 <= row < w.rows(),
    ;
    assert(w.polygon_id(c) == s * row + col) by (nonlinear_arith)
        requires
            w.polygon_id(c) == col + row * s,
    ;
    vstd::arithmetic::div_mod::lemma_fundamental_div_mod_converse(w.polygon_id(c), s, row, col);
}

/// Two lots of the window with the same number are the same lot.
pub proof fn lemma_polygon_id_injective(w: Window, a: Cell, b: Cell)
    requires
        w.wf(),
        w.holds(a),
        w.holds(b),
        w.polygon_id(a) == w.polygon_id(b),
    ensures
        a == b,
{
    lemma_polygon_id_in_range(w, a);
    lemma_polygon_id_in_range(w, b);
}

/// Every number below the count of lots is the number of a lot of the
/// window: the numbers of the window's lots are exactly `0 .. count`.
pub proof fn lemma_polygon_id_covers(w: Window, id: int)
    requires
        w.wf(),
        0 <= id < w.count(),
    ensures
        w.holds(w.cell_of(id)),
        w.polygon_id(w.cell_of(id)) == id,
{
    let s = w.stride();
    let d = w.def;
    let col = id % s;
    let row = id / s;
    let c = w.cell_of(id);
    assert(0 < s) by (nonlinear_arith)
        requires
            s == (2 * w.half_width + 1) * d,
            0 <= w.half_width,
            0 < d,
    ;
    vstd::arithmetic::div_mod::lemma_fundamental_div_mod(id, s);
    vstd::arithmetic::div_mod::lemma_mod_bound(id, s);
    assert(0 <= row < w.rows()) by (nonlinear_arith)
        requires
            id == s * row + col,
            0 <= col < s,
            0 <= id < s * w.rows(),
    ;
    vstd::arithmetic::div_mod::lemma_fundamental_div_mod(col, d);
    vstd::arithmetic::div_mod::lemma_mod_bound(col, d);
    vstd::arithmetic::div_mod::lemma_fundamental_div_mod(row, d);
    vstd::arithmetic::div_mod::lemma_mod_bound(row, d);
    assert(0 <= col / d <= 2 * w.half_width) by (nonlinear_arith)
        requires
            col == d * (col / d) + col % d,
            0 <= col % d < d,
            0 <= col < (2 * w.half_width + 1) * d,
    ;
    assert(0 <= row / d <= 2 * w.half_height) by (nonlinear_arith)
        requires
            row == d * (row / d) + row % d,
            0 <= row % d < d,
            0 <= row < (2 * w.half_height + 1) * d,
    ;
    assert(w.column(c) == col) by (nonlinear_arith)
        requires
            w.column(c) == c.i - d * c.tx + d * w.half_width,
            c.tx == w.half_width - col / d,
            c.i == col % d,
            col == d * (col / d) + col % d,
    ;
    assert(w.row(c) == row) by (nonlinear_arith)
        requires
            w.row(c) == c.j + d * c.tz + d * w.half_height,
            c.tz == row / d - w.half_height,
            c.j == row % d,
            row == d * (row / d) + row % d,
    ;
    assert(col + row * s == id) by (nonlinear_arith)
        requires
            id == s * row + col,
    ;
}

/// The number of a lot in the window of the given half sizes, with tiles
/// of `LOW_DEF` by `LOW_DEF` lots.
pub fn coords_to_polygon_id(coords: (IVec2, IVec2), half_width: isize, half_height: isize) -> (id:
    i32)
    requires
        window(half_width as int, half_height as int, LOW_DEF as int).wf(),
        window(half_width as int, half_height as int, LOW_DEF as int).fits(),
        window(half_width as int, half_height as int, LOW_DEF as int).holds(
            cell(coords.0, coords.1),
        ),
    ensures
        id == window(half_width as int, half_height as int, LOW_DEF as int).polygon_id(
            cell(coords.0, coords.1),
        ),
        id == (coords.1.x - 5 * coords.0.x + 5 * half_width) + (coords.1.y + 5 * coords.0.y + 5
            * half_height) * ((2 * half_width + 1) * 5),
{
    proof {
        lemma_fits(window(half_width as int, half_height as int, LOW_DEF as int));
    }
    lot_polygon_id(coords, half_width, half_height, LOW_DEF as usize) as i32
}

/// The address of a lot on the material plane.
pub open spec fn material_key(c: Cell) -> LotKey {
    lot_key(
        IVec2 { x: c.tx as i32, y: c.tz as i32 },
        Plane::Material,
        IVec2 { x: c.i as i32, y: c.j as i32 },
    )
}

/// A lot that agents cannot enter: its tile lies outside the window, or
/// what stands on it on the material plane stops them.
pub open spec fn obstacle(
    lots: Map<LotKey, Occupying>,
    half_width: int,
    half_height: int,
    c: Cell,
) -> bool {
    !(-half_width <= c.tx <= half_width) || !(-half_height <= c.tz <= half_height) || !traversable(
        lots,
        material_key(c),
    )
}

/// The lot one step against the lot columns: the next tile takes over
/// where a tile ends.
pub open spec fn left(def: int, c: Cell) -> Cell {
    if c.i == 0 {
        Cell { tx: c.tx + 1, tz: c.tz, i: def - 1, j: c.j }
    } else {
        Cell { tx: c.tx, tz: c.tz, i: c.i - 1, j: c.j }
    }
}

/// The lot one row down.
pub open spec fn below(def: int, c: Cell) -> Cell {
    if c.j == 0 {
        Cell { tx: c.tx, tz: c.tz - 1, i: c.i, j: def - 1 }
    } else {
        Cell { tx: c.tx, tz: c.tz, i: c.i, j: c.j - 1 }
    }
}

/// What a vertex records of a lot beside it: the lot's number, or `-1` for
/// an obstacle.
pub open spec fn polygon_ref(lots: Map<LotKey, Occupying>, w: Window, c: Cell) -> int {
    if obstacle(lots, w.half_width, w.half_height, c) {
        -1
    } else {
        w.polygon_id(c)
    }
}

/// A point of the mesh. The unit is half a lot: `2 * def` units make the
/// side of a tile, and tile `(0, 0)` is centred on the origin.
#[derive(Debug, Clone, Copy, PartialEq, Eq, Structural)]
pub struct MeshPoint {
    pub x: i64,
    pub y: i64,
}

/// A corner of a lot, with the polygons of the four lots that meet there.
#[derive(Debug, Clone, PartialEq, Eq)]
pub struct Vertex {
    pub coords: MeshPoint,
    /// Top left, top right, bottom right, bottom left; `-1` where no
    /// polygon is.
    pub polygons: Vec<isize>,
    pub is_corner: bool,
}

/// The polygon of a lot: its four corners, or none for an obstacle.
#[derive(Debug, Clone, PartialEq, Eq)]
pub struct Polygon {
    pub vertices: Vec<u32>,
    pub is_one_way: bool,
}

/// A navigation mesh over a window of tiles.
#[derive(Debug, Clone, PartialEq, Eq)]
pub struct NavMesh {
    pub vertices: Vec<Vertex>,
    pub polygons: Vec<Polygon>,
    pub half_width: isize,
    pub half_height: isize,
    pub def: usize,
}

/// `v` is the vertex of the lot `c`: it stands on the lot's corner of
/// highest x and lowest y, and records the lot itself as its top right
/// polygon.
pub open spec fn vertex_matches(v: Vertex, lots: Map<LotKey, Occupying>, w: Window, c: Cell) -> bool {
    &&& v.coords.x == w.def * (2 * c.tx + 1) - 2 * c.i
    &&& v.coords.y == w.def * (2 * c.tz - 1) + 2 * c.j
    &&& v.polygons@.len() == 4
    &&& v.polygons@[0] == polygon_ref(lots, w, left(w.def, c))
    &&& v.polygons@[1] == polygon_ref(lots, w, c)
    &&& v.polygons@[2] == polygon_ref(lots, w, below(w.def, c))
    &&& v.polygons@[3] == polygon_ref(lots, w, below(w.def, left(w.def, c)))
    &&& v.is_corner == (v.polygons@[0] == -1 || v.polygons@[1] == -1 || v.polygons@[2] == -1
        || v.polygons@[3] == -1)
}

/// `p` is the polygon of the lot `c`: empty for an obstacle, else the
/// vertices of the lot, of its neighbour in the row, and of the two lots
/// above them. In the last row of the window, and at the end of each row,
/// these numbers name vertices of the next row or none at all: the polygon
/// is numbered all the same.
pub open spec fn polygon_matches(p: Polygon, lots: Map<LotKey, Occupying>, w: Window, c: Cell) -> bool {
    let id = w.polygon_id(c);
    &&& !p.is_one_way
    &&& obstacle(lots, w.half_width, w.half_height, c) ==> p.vertices@.len() == 0
    &&& !obstacle(lots, w.half_width, w.half_height, c) ==> {
        &&& p.vertices@.len() == 4
        &&& p.vertices@[0] == id + 1
        &&& p.vertices@[1] == id
        &&& p.vertices@[2] == id + w.stride()
        &&& p.vertices@[3] == id + 1 + w.stride()
    }
}

impl NavMesh {
    /// The window this mesh covers.
    pub open spec fn window(&self) -> Window {
        window(self.half_width as int, self.half_height as int, self.def as int)
    }

    /// The mesh is the one built from `lots`: for each number below the
    /// count of lots, the vertex and the polygon of the lot that has it.
    pub open spec fn is_mesh_of(&self, lots: Map<LotKey, Occupying>) -> bool {
        let w = self.window();
        &&& w.wf()
        &&& w.count() <= i32::MAX
        &&& self.vertices@.len() == w.count()
        &&& self.polygons@.len() == w.count()
        &&& forall|id: int|
            0 <= id < w.count() ==> vertex_matches(
                #[trigger] self.vertices@[id],
                lots,
                w,
                w.cell_of(id),
            )
        &&& forall|id: int|
            0 <= id < w.count() ==> polygon_matches(
                #[trigger] self.polygons@[id],
                lots,
                w,
                w.cell_of(id),
            )
    }
}

/// In a mesh built from `lots`, the vertex and the polygon of a lot of the
/// window stand at the lot's number.
pub proof fn lemma_mesh_by_cell(mesh: NavMesh, lots: Map<LotKey, Occupying>, c: Cell)
    requires
        mesh.is_mesh_of(lots),
        mesh.window().holds(c),
    ensures
        0 <= mesh.window().polygon_id(c) < mesh.vertices@.len(),
        vertex_matches(mesh.vertices@[mesh.window().polygon_id(c)], lots, mesh.window(), c),
        polygon_matches(mesh.polygons@[mesh.window().polygon_id(c)], lots, mesh.window(), c),
{
    lemma_polygon_id_in_range(mesh.window(), c);
}

/// Where nothing on the material plane stops agents, the mesh has no
/// hole: every lot of the window has its polygon, and its vertex records
/// the lot itself.
pub proof fn lemma_open_ground_has_no_holes(mesh: NavMesh, lots: Map<LotKey, Occupying>, id: int)
    requires
        mesh.is_mesh_of(lots),
        forall|key: LotKey| traversable(lots, key),
        0 <= id < mesh.window().count(),
    ensures
        mesh.polygons@[id].vertices@.len() == 4,
        mesh.vertices@[id].polygons@[1] == id,
{
    let w = mesh.window();
    lemma_polygon_id_covers(w, id);
    assert(polygon_matches(mesh.polygons@[id], lots, w, w.cell_of(id)));
    assert(vertex_matches(mesh.vertices@[id], lots, w, w.cell_of(id)));
}

proof fn lemma_fits(w: Window)
    requires
        w.wf(),
        w.fits(),
    ensures
        w.count() <= i32::MAX,
{
    if w.half_width <= 1023 && w.half_height <= 1023 && w.def <= 16 {
        let a = 2 * w.half_width + 1;
        let b = 2 * w.half_height + 1;
        let d = w.def;
        assert(0 < a * d <= 2047 * 16) by (nonlinear_arith)
            requires
                0 < a <= 2047,
                0 < d <= 16,
        ;
        assert(0 < b * d <= 2047 * 16) by (nonlinear_arith)
            requires
                0 < b <= 2047,
                0 < d <= 16,
        ;
        assert((a * d) * (b * d) <= 32752 * 32752) by (nonlinear_arith)
            requires
                0 < a * d <= 32752,
                0 < b * d <= 32752,
        ;
    }
}

proof fn lemma_window_bounds(w: Window)
    requires
        w.wf(),
        w.count() <= i32::MAX,
    ensures
        0 < w.def <= w.stride() <= w.count(),
        w.def <= w.rows() <= w.count(),
        2 * w.half_width + 1 <= w.stride(),
        2 * w.half_height + 1 <= w.rows(),
        w.def * (2 * w.half_width) + w.def == w.stride(),
        w.def * (2 * w.half_height) + w.def == w.rows(),
{
    let d = w.def;
    let a = 2 * w.half_width + 1;
    let b = 2 * w.half_height + 1;
    assert(a * d >= d && a * d >= a && d * (a - 1) + d == a * d) by (nonlinear_arith)
        requires
            a >= 1,
            d >= 1,
    ;
    assert(b * d >= d && b * d >= b && d * (b - 1) + d == b * d) by (nonlinear_arith)
        requires
            b >= 1,
            d >= 1,
    ;
    assert((a * d) * (b * d) >= a * d && (a * d) * (b * d) >= b * d) by (nonlinear_arith)
        requires
            a * d >= 1,
            b * d >= 1,
    ;
}

/// Whether agents cannot enter a lot: its tile lies outside the window, or
/// what stands on it on the material plane stops them.
pub fn is_obstacle(
    coords: (IVec2, IVec2),
    map: &OccupancyMap,
    half_width: isize,
    half_height: isize,
) -> (blocked: bool)
    ensures
        blocked == obstacle(map@, half_width as int, half_height as int, cell(coords.0, coords.1)),
{
    let tx: i128 = coords.0.x as i128;
    let tz: i128 = coords.0.y as i128;
    let w: i128 = half_width as i128;
    let h: i128 = half_height as i128;
    if tx < -w || tx > w || tz < -h || tz > h {
        return true;
    }
    !map.is_traversable(coords.0, Plane::Material, coords.1)
}

/// The number of a lot of the window.
fn lot_polygon_id(coords: (IVec2, IVec2), half_width: isize, half_height: isize, def: usize) -> (id:
    isize)
    requires
        window(half_width as int, half_height as int, def as int).wf(),
        window(half_width as int, half_height as int, def as int).count() <= i32::MAX,
        window(half_width as int, half_height as int, def as int).holds(cell(coords.0, coords.1)),
    ensures
        id == window(half_width as int, half_height as int, def as int).polygon_id(
            cell(coords.0, coords.1),
        ),
        0 <= id < window(half_width as int, half_height as int, def as int).count(),
{
    let ghost w = window(half_width as int, half_height as int, def as int);
    let ghost c = cell(coords.0, coords.1);
    proof {
        lemma_window_bounds(w);
        lemma_columns_and_rows(w, c);
        lemma_polygon_id_in_range(w, c);
        vstd::arithmetic::div_mod::lemma_fundamental_div_mod(w.column(c), w.def);
        vstd::arithmetic::div_mod::lemma_fundamental_div_mod(w.row(c), w.def);
    }
    let d: i64 = def as i64;
    let across: i64 = half_width as i64 - coords.0.x as i64;
    let up: i64 = coords.0.y as i64 + half_height as i64;
    let stride: i64 = (2 * (half_width as i64) + 1) * d;
    assert(0 <= d * across <= w.column(c) && 0 <= d * up <= w.row(c)) by (nonlinear_arith)
        requires
            w.column(c) == d * across + c.i,
            w.row(c) == d * up + c.j,
            0 <= c.i,
            0 <= c.j,
            0 <= across,
            0 <= up,
            0 < d,
    ;
    let column: i64 = d * across + coords.1.x as i64;
    let row: i64 = d * up + coords.1.y as i64;
    assert(0 <= row * stride <= w.polygon_id(c)) by (nonlinear_arith)
        requires
            w.polygon_id(c) == column + row * stride,
            0 <= column,
            0 <= row,
            0 < stride,
    ;
    (column + row * stride) as isize
}

/// What a vertex records of the lot at `coords`.
fn lot_polygon_ref(
    map: &OccupancyMap,
    coords: (IVec2, IVec2),
    half_width: isize,
    half_height: isize,
    def: usize,
) -> (id: isize)
    requires
        window(half_width as int, half_height as int, def as int).wf(),
        window(half_width as int, half_height as int, def as int).count() <= i32::MAX,
        coords.1.is_lot(def as int),
    ensures
        id == polygon_ref(
            map@,
            window(half_width as int, half_height as int, def as int),
            cell(coords.0, coords.1),
        ),
        -1 <= id < window(half_width as int, half_height as int, def as int).count(),
{
    if is_obstacle(coords, map, half_width, half_height) {
        -1
    } else {
        lot_polygon_id(coords, half_width, half_height, def)
    }
}

/// The lot one step against the lot columns.
fn left_of(coords: (IVec2, IVec2), def: usize) -> (next: (IVec2, IVec2))
    requires
        coords.1.is_lot(def as int),
        def <= i32::MAX,
        coords.0.x < i32::MAX,
    ensures
        cell(next.0, next.1) == left(def as int, cell(coords.0, coords.1)),
        next.1.is_lot(def as int),
{
    if coords.1.x == 0 {
        (IVec2::new(coords.0.x + 1, coords.0.y), IVec2::new((def - 1) as i32, coords.1.y))
    } else {
        (coords.0, IVec2::new(coords.1.x - 1, coords.1.y))
    }
}

/// The lot one row down.
fn below_of(coords: (IVec2, IVec2), def: usize) -> (next: (IVec2, IVec2))
    requires
        coords.1.is_lot(def as int),
        def <= i32::MAX,
        coords.0.y > i32::MIN,
    ensures
        cell(next.0, next.1) == below(def as int, cell(coords.0, coords.1)),
        next.1.is_lot(def as int),
{
    if coords.1.y == 0 {
        (IVec2::new(coords.0.x, coords.0.y - 1), IVec2::new(coords.1.x, (def - 1) as i32))
    } else {
        (coords.0, IVec2::new(coords.1.x, coords.1.y - 1))
    }
}

/// Whether a mesh can be built over the window of the given half sizes:
/// the sizes are those of a window, and the numbers of its lots fit.
pub fn window_fits(half_width: isize, half_height: isize, def: usize) -> (fits: bool)
    ensures
        fits == (window(half_width as int, half_height as int, def as int).wf() && window(
            half_width as int,
            half_height as int,
            def as int,
        ).fits()),
{
    let ghost w = window(half_width as int, half_height as int, def as int);
    if half_width < 0 || half_height < 0 || def == 0 {
        return false;
    }
    if half_width > 0x3fff_ffff || half_height > 0x3fff_ffff || def > 0x7fff_ffff {
        proof {
            let a = 2 * w.half_width + 1;
            let b = 2 * w.half_height + 1;
            let d = w.def;
            assert((a * d) * (b * d) >= a && (a * d) * (b * d) >= b && (a * d) * (b * d) >= d)
                by (nonlinear_arith)
                requires
                    a >= 1,
                    b >= 1,
                    d >= 1,
            ;
        }
        return false;
    }
    let d: i128 = def as i128;
    let a: i128 = 2 * (half_width as i128) + 1;
    let b: i128 = 2 * (half_height as i128) + 1;
    assert(0 < a * d <= 0x7fff_ffff * 0x7fff_ffff && 0 < b * d <= 0x7fff_ffff * 0x7fff_ffff)
        by (nonlinear_arith)
        requires
            0 < a <= 0x7fff_ffff,
            0 < b <= 0x7fff_ffff,
            0 < d <= 0x7fff_ffff,
    ;
    let stride: i128 = a * d;
    let rows: i128 = b * d;
    assert(0 < stride * rows <= 0x3fff_ffff_0000_0001 * 0x3fff_ffff_0000_0001) by (nonlinear_arith)
        requires
            0 < stride <= 0x3fff_ffff_0000_0001,
            0 < rows <= 0x3fff_ffff_0000_0001,
    ;
    proof {
        if w.half_width <= 1023 && w.half_height <= 1023 && w.def <= 16 {
            lemma_fits(w);
        }
    }
    stride * rows <= i32::MAX as i128
}

/// Builds the navigation mesh of the window of the given half sizes from
/// the material plane of `map`, with tiles of `def` by `def` lots.
pub fn new_mesh_from_map(map: &OccupancyMap, half_width: isize, half_height: isize, def: usize) -> (mesh:
    NavMesh)
    requires
        window(half_width as int, half_height as int, def as int).wf(),
        window(half_width as int, half_height as int, def as int).fits(),
    ensures
        mesh.half_width == half_width,
        mesh.half_height == half_height,
        mesh.def == def,
        mesh.is_mesh_of(map@),
        mesh.vertices@.len() == (2 * half_width + 1) * def * ((2 * half_height + 1) * def),
        mesh.polygons@.len() == (2 * half_width + 1) * def * ((2 * half_height + 1) * def),
{
    let ghost w = window(half_width as int, half_height as int, def as int);
    proof {
        lemma_fits(w);
        lemma_window_bounds(w);
    }
    let d: i64 = def as i64;
    let stride: i64 = (2 * (half_width as i64) + 1) * d;
    let rows: i64 = (2 * (half_height as i64) + 1) * d;
    let count: i64 = stride * rows;
    let mut vertices: Vec<Vertex> = Vec::new();
    let mut polygons: Vec<Polygon> = Vec::new();
    let mut id: i64 = 0;
    while id < count
        invariant
            w == window(half_width as int, half_height as int, def as int),
            w.wf(),
            w.count() <= i32::MAX,
            d == def,
            stride == w.stride(),
            rows == w.rows(),
            count == w.count(),
            0 < d <= stride <= count,
            d <= rows <= count,
            2 * half_width + 1 <= stride,
            2 * half_height + 1 <= rows,
            0 <= id <= count,
            vertices@.len() == id,
            polygons@.len() == id,
            forall|k: int|
                0 <= k < id ==> vertex_matches(#[trigger] vertices@[k], map@, w, w.cell_of(k)),
            forall|k: int|
                0 <= k < id ==> polygon_matches(#[trigger] polygons@[k], map@, w, w.cell_of(k)),
        decreases count - id,
    {
        let ghost c = w.cell_of(id as int);
        proof {
            lemma_polygon_id_covers(w, id as int);
        }
        let column: i64 = id % stride;
        let row: i64 = id / stride;
        let tile = IVec2::new(
            (half_width as i64 - column / d) as i32,
            (row / d - half_height as i64) as i32,
        );
        let lot = IVec2::new((column % d) as i32, (row % d) as i32);
        assert(cell(tile, lot) == c);
        let here = (tile, lot);
        let beside = left_of(here, def);
        let under = below_of(here, def);
        let across = below_of(beside, def);
        let top_left = lot_polygon_ref(map, beside, half_width, half_height, def);
        let top_right = lot_polygon_ref(map, here, half_width, half_height, def);
        let bottom_right = lot_polygon_ref(map, under, half_width, half_height, def);
        let bottom_left = lot_polygon_ref(map, across, half_width, half_height, def);
        assert(-stride <= d * (2 * c.tx + 1) <= stride && -rows <= d * (2 * c.tz - 1) <= rows)
            by (nonlinear_arith)
            requires
                0 < d,
                stride == (2 * half_width + 1) * d,
                rows == (2 * half_height + 1) * d,
                -half_width <= c.tx <= half_width,
                -half_height <= c.tz <= half_height,
        ;
        let coords = MeshPoint {
            x: d * (2 * (tile.x as i64) + 1) - 2 * (lot.x as i64),
            y: d * (2 * (tile.y as i64) - 1) + 2 * (lot.y as i64),
        };
        let is_corner = top_left == -1 || top_right == -1 || bottom_right == -1 || bottom_left
            == -1;
        let mut around: Vec<isize> = Vec::new();
        around.push(top_left);
        around.push(top_right);
        around.push(bottom_right);
        around.push(bottom_left);
        let mut corners: Vec<u32> = Vec::new();
        if top_right != -1 {
            corners.push((id + 1) as u32);
            corners.push(id as u32);
            corners.push((id + stride) as u32);
            corners.push((id + 1 + stride) as u32);
        }
        vertices.push(Vertex { coords, polygons: around, is_corner });
        polygons.push(Polygon { vertices: corners, is_one_way: false });
        id = id + 1;
    }
    NavMesh { vertices, polygons, half_width, half_height, def }
}

/// `after` is the vertex `before` with the polygon `id` taken away: where
/// it recorded `id` it records `-1`.
pub open spec fn vertex_cut(before: Vertex, after: Vertex, id: int) -> bool {
    &&& after.coords == before.coords
    &&& after.polygons@.len() == before.polygons@.len()
    &&& forall|t: int|
        0 <= t < before.polygons@.len() ==> #[trigger] after.polygons@[t] == (if before.polygons@[t]
            == id {
            -1isize
        } else {
            before.polygons@[t]
        })
    &&& after.is_corner == (before.is_corner || exists|t: int|
        0 <= t < before.polygons@.len() && #[trigger] before.polygons@[t] == id)
}

/// `after` is the polygon `before`, emptied if its number `k` is `id`.
pub open spec fn polygon_cut(before: Polygon, after: Polygon, k: int, id: int) -> bool {
    &&& after.is_one_way == before.is_one_way
    &&& after.vertices@ == (if k == id {
        Seq::<u32>::empty()
    } else {
        before.vertices@
    })
}

impl NavMesh {
    /// The mesh has one vertex and one polygon for each lot of its window.
    pub open spec fn shaped(&self) -> bool {
        let w = self.window();
        &&& w.wf()
        &&& w.count() <= i32::MAX
        &&& self.vertices@.len() == w.count()
        &&& self.polygons@.len() == w.count()
    }

    /// Whether the mesh has one vertex and one polygon for each lot of its
    /// window.
    pub fn is_shaped(&self) -> (shaped: bool)
        ensures
            shaped == self.shaped(),
    {
        let ghost w = self.window();
        if !window_fits(self.half_width, self.half_height, self.def) {
            proof {
                if w.wf() && w.count() <= i32::MAX {
                    assert(w.fits());
                }
            }
            return false;
        }
        proof {
            lemma_fits(w);
            lemma_window_bounds(w);
        }
        let d: i64 = self.def as i64;
        let stride: i64 = (2 * (self.half_width as i64) + 1) * d;
        let rows: i64 = (2 * (self.half_height as i64) + 1) * d;
        let count: i64 = stride * rows;
        self.vertices.len() as i128 == count as i128 && self.polygons.len() as i128 == count as i128
    }

    /// This mesh is `before` with the polygon `id` cut out of it.
    pub open spec fn is_cut_of(&self, before: NavMesh, id: int) -> bool {
        &&& self.half_width == before.half_width
        &&& self.half_height == before.half_height
        &&& self.def == before.def
        &&& self.vertices@.len() == before.vertices@.len()
        &&& self.polygons@.len() == before.polygons@.len()
        &&& forall|k: int|
            0 <= k < before.vertices@.len() ==> vertex_cut(
                before.vertices@[k],
                #[trigger] self.vertices@[k],
                id,
            )
        &&& forall|k: int|
            0 <= k < before.polygons@.len() ==> polygon_cut(
                before.polygons@[k],
                #[trigger] self.polygons@[k],
                k,
                id,
            )
    }

    /// Cuts the polygon of a lot out of the mesh, as if an obstacle stood
    /// on the lot. A lot outside the window leaves the mesh as it is.
    pub fn cut_polygon_out(&mut self, coords: (IVec2, IVec2))
        requires
            old(self).shaped(),
        ensures
            final(self).shaped(),
            old(self).window().holds(cell(coords.0, coords.1)) ==> final(self).is_cut_of(
                *old(self),
                old(self).window().polygon_id(cell(coords.0, coords.1)),
            ),
            !old(self).window().holds(cell(coords.0, coords.1)) ==> *final(self) == *old(self),
    {
        let tx: i128 = coords.0.x as i128;
        let tz: i128 = coords.0.y as i128;
        let w: i128 = self.half_width as i128;
        let h: i128 = self.half_height as i128;
        if tx < -w || tx > w || tz < -h || tz > h {
            return ;
        }
        if coords.1.x < 0 || coords.1.y < 0 || coords.1.x as i128 >= self.def as i128 || coords.1.y as i128
            >= self.def as i128 {
            return ;
        }
        let id: isize = lot_polygon_id(coords, self.half_width, self.half_height, self.def);
        let shut = Polygon { vertices: Vec::new(), is_one_way: self.polygons[id as usize].is_one_way };
        self.polygons.set(id as usize, shut);
        let mut k: usize = 0;
        while k < self.vertices.len()
            invariant
                k <= self.vertices@.len(),
                self.vertices@.len() == old(self).vertices@.len(),
                self.half_width == old(self).half_width,
                self.half_height == old(self).half_height,
                self.def == old(self).def,
                self.polygons@.len() == old(self).polygons@.len(),
                forall|n: int|
                    0 <= n < self.polygons@.len() ==> polygon_cut(
                        old(self).polygons@[n],
                        #[trigger] self.polygons@[n],
                        n,
                        id as int,
                    ),
                forall|n: int|
                    0 <= n < k ==> vertex_cut(
                        old(self).vertices@[n],
                        #[trigger] self.vertices@[n],
                        id as int,
                    ),
                forall|n: int|
                    k <= n < self.vertices@.len() ==> #[trigger] self.vertices@[n] == old(self).vertices@[n],
            decreases self.vertices@.len() - k,
        {
            let ghost before = self.vertices@[k as int];
            let mut around: Vec<isize> = Vec::new();
            let mut hit = false;
            let mut t: usize = 0;
            while t < self.vertices[k].polygons.len()
                invariant
                    k < self.vertices@.len(),
                    self.vertices@[k as int] == before,
                    t <= before.polygons@.len(),
                    around@.len() == t,
                    forall|n: int|
                        0 <= n < t ==> #[trigger] around@[n] == (if before.polygons@[n] == id {
                            -1isize
                        } else {
                            before.polygons@[n]
                        }),
                    hit == exists|n: int| 0 <= n < t && #[trigger] before.polygons@[n] == id,
                decreases before.polygons@.len() - t,
            {
                let seen = self.vertices[k].polygons[t];
                if seen == id {
                    around.push(-1);
                    hit = true;
                } else {
                    around.push(seen);
                }
                t = t + 1;
            }
            let coords = self.vertices[k].coords;
            let is_corner = self.vertices[k].is_corner || hit;
            self.vertices.set(k, Vertex { coords, polygons: around, is_corner });
            k = k + 1;
        }
    }
}

/// A lot whose tile lies at most one tile outside the window.
spec fn near(w: Window, c: Cell) -> bool {
    &&& -w.half_width - 1 <= c.tx <= w.half_width + 1
    &&& -w.half_height - 1 <= c.tz <= w.half_height + 1
    &&& 0 <= c.i < w.def
    &&& 0 <= c.j < w.def
}

/// What a vertex records of a lot once an obstacle stands on the lot `c`:
/// `-1` where it recorded the number of `c`, and what it recorded
/// elsewhere.
proof fn lemma_ref_after_block(
    lots: Map<LotKey, Occupying>,
    w: Window,
    c: Cell,
    n: Cell,
    occupant: Occupying,
)
    requires
        w.wf(),
        w.count() <= i32::MAX,
        w.holds(c),
        near(w, n),
        !occupant.spec_is_path_free(),
    ensures
        polygon_ref(lots.insert(material_key(c), occupant), w, n) == (if polygon_ref(lots, w, n)
            == w.polygon_id(c) {
            -1
        } else {
            polygon_ref(lots, w, n)
        }),
        n == c ==> obstacle(
            lots.insert(material_key(c), occupant),
            w.half_width,
            w.half_height,
            n,
        ),
        n != c ==> obstacle(lots.insert(material_key(c), occupant), w.half_width, w.half_height, n)
            == obstacle(lots, w.half_width, w.half_height, n),
{
    lemma_window_bounds(w);
    lemma_polygon_id_in_range(w, c);
    if n != c {
        assert(material_key(n) != material_key(c));
        if !obstacle(lots, w.half_width, w.half_height, n) {
            lemma_polygon_id_in_range(w, n);
            if w.polygon_id(n) == w.polygon_id(c) {
                lemma_polygon_id_injective(w, n, c);
            }
        }
    }
}

/// Cutting a lot out of the mesh built from a map gives the mesh built
/// from the map with an obstacle on that lot: asking the cut mesh for a
/// path is asking the mesh as it will be once the lot is built on.
pub proof fn lemma_cut_is_rebuild(
    before: NavMesh,
    after: NavMesh,
    lots: Map<LotKey, Occupying>,
    c: Cell,
    occupant: Occupying,
)
    requires
        before.is_mesh_of(lots),
        before.window().holds(c),
        after.is_cut_of(before, before.window().polygon_id(c)),
        !occupant.spec_is_path_free(),
    ensures
        after.is_mesh_of(lots.insert(material_key(c), occupant)),
{
    let w = before.window();
    let id = w.polygon_id(c);
    let blocked = lots.insert(material_key(c), occupant);
    lemma_window_bounds(w);
    lemma_polygon_id_in_range(w, c);
    assert forall|k: int| 0 <= k < w.count() implies vertex_matches(
        #[trigger] after.vertices@[k],
        blocked,
        w,
        w.cell_of(k),
    ) by {
        let x = w.cell_of(k);
        lemma_polygon_id_covers(w, k);
        let old_v = before.vertices@[k];
        let new_v = after.vertices@[k];
        assert(vertex_matches(old_v, lots, w, x));
        assert(vertex_cut(old_v, new_v, id));
        lemma_ref_after_block(lots, w, c, left(w.def, x), occupant);
        lemma_ref_after_block(lots, w, c, x, occupant);
        lemma_ref_after_block(lots, w, c, below(w.def, x), occupant);
        lemma_ref_after_block(lots, w, c, below(w.def, left(w.def, x)), occupant);
        assert(new_v.polygons@[0] == polygon_ref(blocked, w, left(w.def, x)));
        assert(new_v.polygons@[1] == polygon_ref(blocked, w, x));
        assert(new_v.polygons@[2] == polygon_ref(blocked, w, below(w.def, x)));
        assert(new_v.polygons@[3] == polygon_ref(blocked, w, below(w.def, left(w.def, x))));
        if old_v.polygons@[0] == id || old_v.polygons@[1] == id || old_v.polygons@[2] == id
            || old_v.polygons@[3] == id {
        } else {
            assert forall|t: int| 0 <= t < old_v.polygons@.len() implies old_v.polygons@[t]
                != id by {}
        }
    }
    assert forall|k: int| 0 <= k < w.count() implies polygon_matches(
        #[trigger] after.polygons@[k],
        blocked,
        w,
        w.cell_of(k),
    ) by {
        let x = w.cell_of(k);
        lemma_polygon_id_covers(w, k);
        assert(polygon_matches(before.polygons@[k], lots, w, x));
        assert(polygon_cut(before.polygons@[k], after.polygons@[k], k, id));
        lemma_ref_after_block(lots, w, c, x, occupant);
        if k == id {
            lemma_polygon_id_injective(w, x, c);
        }
    }
}

} // verus!
