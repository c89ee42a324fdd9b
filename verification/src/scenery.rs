//! Scenery and nests scattered over a tile when its terrain arrives.

use crate::coords::{IVec2, LOW_DEF};
use crate::dice::{draw_bits, draw_ratio};
use crate::occupancy::{lot_key, placed, LotKey, OccupancyMap, Occupying};
use crate::terra::Plane;
use vstd::prelude::*;

verus! {

/// A nest appears on a lot with odds of the squared distance of its tile
/// from the origin to this number.
pub const NEST_ODDS: u32 = 3000;

/// A tree grows on one lot in this many.
pub const TREE_ODDS: u32 = 100;

/// A bench stands on one lot in this many; so does a rock.
pub const BENCH_ODDS: u32 = 200;

/// What was drawn for one lot: whether a nest, a tree, a bench or a rock
/// came up, and the angle to turn it by.
#[derive(Debug, Clone, Copy, PartialEq, Eq, Structural)]
pub struct Draws {
    pub nest: bool,
    pub tree: bool,
    pub bench: bool,
    pub rock: bool,
    pub angle: u16,
}

/// What the draws put on a lot: a nest comes before a tree, a tree before
/// a bench, a bench before a rock.
pub open spec fn decoration(draws: Draws) -> Option<Occupying> {
    if draws.nest {
        Some(Occupying::Coffin(draws.angle))
    } else if draws.tree {
        Some(Occupying::Tree)
    } else if draws.bench {
        Some(Occupying::Bench(draws.angle))
    } else if draws.rock {
        Some(Occupying::Rock(draws.angle))
    } else {
        None
    }
}

/// The squared distance of a tile from the origin.
pub open spec fn squared_distance(tile: IVec2) -> int {
    tile.x * tile.x + tile.y * tile.y
}

/// Whether the odds of a nest on a tile are odds at all: the squared
/// distance of the tile does not exceed `NEST_ODDS`. A tile no more than 38
/// tiles from the origin on each axis is always near enough.
pub open spec fn has_nest_odds(tile: IVec2) -> bool {
    ||| (-38 <= tile.x <= 38 && -38 <= tile.y <= 38)
    ||| squared_distance(tile) <= NEST_ODDS
}

/// Lots in a tile.
pub const LOTS_PER_TILE: usize = 25;

/// What decoration places: nests, trees, benches and rocks.
pub open spec fn is_scenery(occupant: Occupying) -> bool {
    match occupant {
        Occupying::Coffin(_) | Occupying::Tree | Occupying::Bench(_) | Occupying::Rock(_) => true,
        _ => false,
    }
}

/// A coffin marks a nest.
pub open spec fn is_nest(occupant: Occupying) -> bool {
    occupant is Coffin
}

/// The map after `choice` was offered to a lot on both planes: each plane
/// takes it unless its lot is taken.
pub open spec fn decorated(
    lots: Map<LotKey, Occupying>,
    tile: IVec2,
    lot: IVec2,
    choice: Option<Occupying>,
) -> Map<LotKey, Occupying> {
    match choice {
        None => lots,
        Some(occupant) => placed(
            placed(lots, lot_key(tile, Plane::Material, lot), occupant),
            lot_key(tile, Plane::Ethereal, lot),
            occupant,
        ),
    }
}

/// Whether offering `choice` to a lot founds a nest there: it is a coffin,
/// and the lot is free on the material plane.
pub open spec fn founds_nest(
    lots: Map<LotKey, Occupying>,
    tile: IVec2,
    lot: IVec2,
    choice: Option<Occupying>,
) -> bool {
    match choice {
        Some(occupant) => is_nest(occupant) && !lots.contains_key(
            lot_key(tile, Plane::Material, lot),
        ),
        None => false,
    }
}

/// Whether the odds of a nest on a tile are odds at all.
pub fn has_odds(tile: IVec2) -> (odds: bool)
    ensures
        odds == has_nest_odds(tile),
{
    let x: i64 = tile.x as i64;
    let y: i64 = tile.y as i64;
    if x < -54 || x > 54 || y < -54 || y > 54 {
        assert(tile.x * tile.x + tile.y * tile.y > 3000) by (nonlinear_arith)
            requires
                tile.x < -54 || tile.x > 54 || tile.y < -54 || tile.y > 54,
        ;
        return false;
    }
    assert(0 <= x * x <= 2916 && 0 <= y * y <= 2916) by (nonlinear_arith)
        requires
            -54 <= x <= 54,
            -54 <= y <= 54,
    ;
    assert((-38 <= x <= 38 && -38 <= y <= 38) ==> x * x + y * y <= 3000) by (nonlinear_arith);
    x * x + y * y <= NEST_ODDS as i64
}

/// What the draws put on a lot.
pub fn pick_decoration(draws: Draws) -> (choice: Option<Occupying>)
    ensures
        choice == decoration(draws),
{
    if draws.nest {
        Some(Occupying::Coffin(draws.angle))
    } else if draws.tree {
        Some(Occupying::Tree)
    } else if draws.bench {
        Some(Occupying::Bench(draws.angle))
    } else if draws.rock {
        Some(Occupying::Rock(draws.angle))
    } else {
        None
    }
}

/// Offers `choice` to a lot on both planes. Returns whether a nest was
/// founded.
pub fn decorate_lot(map: &mut OccupancyMap, tile: IVec2, lot: IVec2, choice: Option<Occupying>) -> (nest:
    bool)
    ensures
        final(map)@ == decorated(old(map)@, tile, lot, choice),
        nest == founds_nest(old(map)@, tile, lot, choice),
{
    match choice {
        None => false,
        Some(occupant) => {
            let on_material = map.try_place(tile, Plane::Material, lot, occupant);
            let _ = map.try_place(tile, Plane::Ethereal, lot, occupant);
            match occupant {
                Occupying::Coffin(_) => on_material,
                _ => false,
            }
        },
    }
}

/// What holds of the draws for a lot whatever comes up. Each thing is
/// drawn only when those before it missed, so at most one of them came up;
/// and the angle is drawn only when something turns by it, and is zero
/// otherwise.
pub open spec fn drawn_in_turn(draws: Draws) -> bool {
    &&& draws.tree ==> !draws.nest
    &&& draws.bench ==> !draws.nest && !draws.tree
    &&& draws.rock ==> !draws.nest && !draws.tree && !draws.bench
    &&& !(draws.nest || draws.bench || draws.rock) ==> draws.angle == 0
}

/// Draws for one lot of a tile, each draw only when those before it
/// missed, and the angle only when something turns by it. A nest comes up
/// with odds of `nest_odds` to `NEST_ODDS`: never at odds of zero, always
/// at odds of one.
fn draw_for_lot(nest_odds: u32) -> (draws: Draws)
    requires
        nest_odds <= NEST_ODDS,
    ensures
        drawn_in_turn(draws),
        nest_odds == 0 ==> !draws.nest,
        nest_odds == NEST_ODDS ==> draws.nest,
{
    let nest = draw_ratio(nest_odds, NEST_ODDS);
    let tree = !nest && draw_ratio(1, TREE_ODDS);
    let bench = !nest && !tree && draw_ratio(1, BENCH_ODDS);
    let rock = !nest && !tree && !bench && draw_ratio(1, BENCH_ODDS);
    let angle: u16 = if nest || bench || rock {
        (draw_bits() / 0x1_0000) as u16
    } else {
        0
    };
    Draws { nest, tree, bench, rock, angle }
}

/// The lot that the draws at `index` are for: lots are taken column by
/// column.
pub open spec fn lot_at(index: int) -> IVec2 {
    IVec2 { x: (index / (LOW_DEF as int)) as i32, y: (index % (LOW_DEF as int)) as i32 }
}

/// The map after the lots of a tile were offered what was drawn for them,
/// one after the other.
pub open spec fn decorated_tile(
    lots: Map<LotKey, Occupying>,
    tile: IVec2,
    draws: Seq<Draws>,
) -> Map<LotKey, Occupying>
    decreases draws.len(),
{
    if draws.len() == 0 {
        lots
    } else {
        decorated(
            decorated_tile(lots, tile, draws.drop_last()),
            tile,
            lot_at(draws.len() - 1),
            decoration(draws.last()),
        )
    }
}

/// The lots of a tile on which the draws founded a nest, in the order of
/// the draws.
pub open spec fn nests_founded(
    lots: Map<LotKey, Occupying>,
    tile: IVec2,
    draws: Seq<Draws>,
) -> Seq<IVec2>
    decreases draws.len(),
{
    if draws.len() == 0 {
        Seq::empty()
    } else {
        let earlier = nests_founded(lots, tile, draws.drop_last());
        if founds_nest(
            decorated_tile(lots, tile, draws.drop_last()),
            tile,
            lot_at(draws.len() - 1),
            decoration(draws.last()),
        ) {
            earlier.push(lot_at(draws.len() - 1))
        } else {
            earlier
        }
    }
}

/// Offers each lot of a tile what was drawn for it. Returns the lots on
/// which a nest was founded.
pub fn decorate_tile_with(map: &mut OccupancyMap, tile: IVec2, draws: &Vec<Draws>) -> (nests: Vec<
    IVec2,
>)
    requires
        draws@.len() == LOTS_PER_TILE,
    ensures
        final(map)@ == decorated_tile(old(map)@, tile, draws@),
        nests@ == nests_founded(old(map)@, tile, draws@),
{
    let mut nests: Vec<IVec2> = Vec::new();
    let side: usize = LOW_DEF as usize;
    let mut index: usize = 0;
    proof {
        assert(draws@.take(0) =~= Seq::<Draws>::empty());
    }
    while index < side * side
        invariant
            side == LOW_DEF,
            draws@.len() == side * side,
            index <= side * side,
            map@ == decorated_tile(old(map)@, tile, draws@.take(index as int)),
            nests@ == nests_founded(old(map)@, tile, draws@.take(index as int)),
        decreases side * side - index,
    {
        let lot = IVec2::new((index / side) as i32, (index % side) as i32);
        proof {
            let now = draws@.take(index + 1);
            assert(now.drop_last() =~= draws@.take(index as int));
            assert(now.last() == draws@[index as int]);
            assert(lot == lot_at(now.len() - 1));
        }
        let choice = pick_decoration(draws[index]);
        if decorate_lot(map, tile, lot, choice) {
            nests.push(lot);
        }
        index = index + 1;
    }
    proof {
        assert(draws@.take(draws@.len() as int) =~= draws@);
    }
    nests
}

/// Draws for every lot of a tile whose nests come up with odds of
/// `nest_odds` to `NEST_ODDS`.
fn draw_for_tile(nest_odds: u32) -> (draws: Vec<Draws>)
    requires
        nest_odds <= NEST_ODDS,
    ensures
        draws@.len() == LOTS_PER_TILE,
        nest_odds == 0 ==> forall|k: int| 0 <= k < draws@.len() ==> !(#[trigger] draws@[k]).nest,
{
    let mut draws: Vec<Draws> = Vec::new();
    let count: usize = LOTS_PER_TILE;
    while draws.len() < count
        invariant
            count == LOTS_PER_TILE,
            draws@.len() <= count,
            nest_odds <= NEST_ODDS,
            nest_odds == 0 ==> forall|k: int|
                0 <= k < draws@.len() ==> !(#[trigger] draws@[k]).nest,
        decreases count - draws@.len(),
    {
        draws.push(draw_for_lot(nest_odds));
    }
    draws
}

/// Scatters scenery and nests over a tile whose terrain arrived, at
/// random: the further the tile from the origin, the likelier a nest, and
/// none on the tile at the origin. Returns the lots on which a nest was
/// founded.
pub fn decorate_tile(map: &mut OccupancyMap, tile: IVec2) -> (nests: Vec<IVec2>)
    requires
        has_nest_odds(tile),
    ensures
        exists|draws: Seq<Draws>|
            {
                &&& draws.len() == LOTS_PER_TILE
                &&& final(map)@ == #[trigger] decorated_tile(old(map)@, tile, draws)
                &&& nests@ == nests_founded(old(map)@, tile, draws)
                &&& squared_distance(tile) == 0 ==> forall|k: int|
                    0 <= k < draws.len() ==> !(#[trigger] draws[k]).nest
            },
{
    assert(0 <= tile.x * tile.x <= 3000 && 0 <= tile.y * tile.y <= 3000 && tile.x * tile.x
        + tile.y * tile.y <= 3000) by (nonlinear_arith)
        requires
            (-38 <= tile.x <= 38 && -38 <= tile.y <= 38) || tile.x * tile.x + tile.y * tile.y
                <= 3000,
    ;
    let odds: i32 = tile.x * tile.x + tile.y * tile.y;
    let draws = draw_for_tile(odds as u32);
    decorate_tile_with(map, tile, &draws)
}

/// Decoration overwrites nothing, and adds only scenery on lots of the
/// tile.
pub proof fn lemma_decoration_adds_scenery(
    lots: Map<LotKey, Occupying>,
    tile: IVec2,
    draws: Seq<Draws>,
    key: LotKey,
)
    requires
        draws.len() <= LOTS_PER_TILE,
    ensures
        lots.contains_key(key) ==> decorated_tile(lots, tile, draws).contains_key(key)
            && decorated_tile(lots, tile, draws)[key] == lots[key],
        decorated_tile(lots, tile, draws).contains_key(key) && !lots.contains_key(key) ==> {
            &&& key.tile == tile
            &&& key.lot.is_lot(LOW_DEF as int)
            &&& is_scenery(decorated_tile(lots, tile, draws)[key])
        },
    decreases draws.len(),
{
    if draws.len() > 0 {
        lemma_decoration_adds_scenery(lots, tile, draws.drop_last(), key);
    }
}

} // verus!
