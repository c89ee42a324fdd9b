//! What stands on each sub-lot of each tile, on both planes.

use crate::coords::{IVec2, LOW_DEF};
use crate::terra::{lemma_next_is_an_involution, Plane};
use std::collections::HashMap;
use vstd::prelude::*;

verus! {

broadcast use vstd::std_specs::hash::group_hash_axioms;

/// What occupies a sub-lot. An angle is a sixteen-bit fraction of a turn:
/// `0x4000` is a quarter turn.
#[derive(Debug, Clone, Copy, PartialEq, Eq, Structural)]
pub enum Occupying {
    Crystal,
    Tree,
    Bench(u16),
    Rock(u16),
    Mountain,
    Tower,
    Block,
    Coffin(u16),
}

impl Occupying {
    /// Whether a tower may replace this occupant.
    pub open spec fn spec_is_free(&self) -> bool {
        match *self {
            Occupying::Tree | Occupying::Bench(_) | Occupying::Rock(_) => true,
            Occupying::Crystal
            | Occupying::Mountain
            | Occupying::Tower
            | Occupying::Block
            | Occupying::Coffin(_) => false,
        }
    }

    /// Whether agents walk across this occupant.
    pub open spec fn spec_is_path_free(&self) -> bool {
        match *self {
            Occupying::Mountain | Occupying::Tower | Occupying::Block => false,
            Occupying::Crystal
            | Occupying::Tree
            | Occupying::Bench(_)
            | Occupying::Rock(_)
            | Occupying::Coffin(_) => true,
        }
    }

    /// Whether a tower may replace this occupant: scenery gives way,
    /// everything else stays.
    #[verifier::when_used_as_spec(spec_is_free)]
    pub fn is_free(&self) -> (free: bool)
        ensures
            free == self.spec_is_free(),
    {
        match self {
            Occupying::Crystal
            | Occupying::Mountain
            | Occupying::Tower
            | Occupying::Block
            | Occupying::Coffin(_) => false,
            Occupying::Tree | Occupying::Bench(_) | Occupying::Rock(_) => true,
        }
    }

    /// Whether agents walk across this occupant.
    #[verifier::when_used_as_spec(spec_is_path_free)]
    pub fn is_path_free(&self) -> (free: bool)
        ensures
            free == self.spec_is_path_free(),
    {
        match self {
            Occupying::Mountain | Occupying::Tower | Occupying::Block => false,
            Occupying::Crystal
            | Occupying::Tree
            | Occupying::Bench(_)
            | Occupying::Rock(_)
            | Occupying::Coffin(_) => true,
        }
    }
}

/// Mountains, towers and blocks stop agents; the crystal does not, though
/// nothing can be built on it; whatever can be built over can be walked
/// across.
pub proof fn lemma_occupant_predicates(angle: u16, occupant: Occupying)
    ensures
        !Occupying::Mountain.spec_is_path_free(),
        !Occupying::Tower.spec_is_path_free(),
        !Occupying::Block.spec_is_path_free(),
        Occupying::Crystal.spec_is_path_free(),
        !Occupying::Crystal.spec_is_free(),
        Occupying::Coffin(angle).spec_is_path_free(),
        !Occupying::Coffin(angle).spec_is_free(),
        occupant.spec_is_free() ==> occupant.spec_is_path_free(),
{
}

/// The address of a sub-lot: its tile, its plane, and its place in the tile.
#[derive(Debug, Clone, Copy, PartialEq, Eq, Structural)]
pub struct LotKey {
    pub tile: IVec2,
    pub plane: Plane,
    pub lot: IVec2,
}

/// The address of the lot `lot` of the tile `tile` on `plane`.
pub open spec fn lot_key(tile: IVec2, plane: Plane, lot: IVec2) -> LotKey {
    LotKey { tile, plane, lot }
}

/// The occupant map after an attempt to place `occupant` at `key`: an
/// occupied lot keeps what it holds.
pub open spec fn placed(
    lots: Map<LotKey, Occupying>,
    key: LotKey,
    occupant: Occupying,
) -> Map<LotKey, Occupying> {
    if lots.contains_key(key) {
        lots
    } else {
        lots.insert(key, occupant)
    }
}

/// A lot that is empty, or holds scenery that gives way.
pub open spec fn buildable(lots: Map<LotKey, Occupying>, key: LotKey) -> bool {
    lots.contains_key(key) ==> lots[key].spec_is_free()
}

/// A lot that is empty, or holds something agents walk across.
pub open spec fn traversable(lots: Map<LotKey, Occupying>, key: LotKey) -> bool {
    lots.contains_key(key) ==> lots[key].spec_is_path_free()
}

/// Placing on a lot that a first placement has filled changes nothing: the
/// first occupant stays, whatever the second one is.
pub proof fn lemma_second_placement_is_rejected(
    lots: Map<LotKey, Occupying>,
    key: LotKey,
    first: Occupying,
    second: Occupying,
)
    ensures
        placed(lots, key, first).contains_key(key),
        placed(placed(lots, key, first), key, second) == placed(lots, key, first),
        !lots.contains_key(key) ==> placed(placed(lots, key, first), key, second)[key] == first,
{
}

/// The map after a tower is built on `tile` and `lot` of `plane`: the tower
/// stands there, and a block fills the same lot of the other plane.
pub open spec fn with_tower(
    lots: Map<LotKey, Occupying>,
    tile: IVec2,
    lot: IVec2,
    plane: Plane,
) -> Map<LotKey, Occupying> {
    lots.insert(lot_key(tile, plane, lot), Occupying::Tower).insert(
        lot_key(tile, plane.spec_next(), lot),
        Occupying::Block,
    )
}

/// Where a cell of a tile's obstacle map lies among the tile's lots: the
/// lots are counted against the x axis.
pub open spec fn mirrored(cell: IVec2) -> IVec2 {
    IVec2 { x: (LOW_DEF - cell.x - 1) as i32, y: cell.y }
}

/// Whether `key` is a lot of `tile` that one of `mountains` covers.
pub open spec fn is_mountain_lot(key: LotKey, tile: IVec2, mountains: Seq<IVec2>) -> bool {
    key.tile == tile && exists|n: int|
        0 <= n < mountains.len() && key.lot == mirrored(#[trigger] mountains[n])
}

/// The map a game starts from: the crystal stands in the middle of the
/// tile at the origin, on both planes.
pub open spec fn starting_lots() -> Map<LotKey, Occupying> {
    let origin = IVec2 { x: 0, y: 0 };
    let middle = IVec2 { x: 2, y: 2 };
    Map::<LotKey, Occupying>::empty().insert(
        lot_key(origin, Plane::Material, middle),
        Occupying::Crystal,
    ).insert(lot_key(origin, Plane::Ethereal, middle), Occupying::Crystal)
}

/// A number and one more 32-bit digit below it.
spec fn with_digit(high: int, digit: int) -> int {
    high * 0x1_0000_0000 + (digit + 0x8000_0000)
}

/// One number for a tile and a sub-lot: four 32-bit digits.
spec fn lot_code(tile: IVec2, lot: IVec2) -> int {
    with_digit(
        with_digit(with_digit(tile.x + 0x8000_0000, tile.y as int), lot.x as int),
        lot.y as int,
    )
}

proof fn lemma_with_digit_injective(h1: int, d1: i32, h2: int, d2: i32)
    requires
        with_digit(h1, d1 as int) == with_digit(h2, d2 as int),
    ensures
        h1 == h2,
        d1 == d2,
{
    if h1 < h2 {
        assert(h1 + 1 <= h2);
        assert((h1 + 1) * 0x1_0000_0000 <= h2 * 0x1_0000_0000);
    } else if h2 < h1 {
        assert(h2 + 1 <= h1);
        assert((h2 + 1) * 0x1_0000_0000 <= h1 * 0x1_0000_0000);
    }
}

proof fn lemma_lot_code_injective(t1: IVec2, l1: IVec2, t2: IVec2, l2: IVec2)
    ensures
        0 <= lot_code(t1, l1) <= u128::MAX,
        lot_code(t1, l1) == lot_code(t2, l2) ==> t1 == t2 && l1 == l2,
{
    let a1 = with_digit(t1.x + 0x8000_0000, t1.y as int);
    let a2 = with_digit(t2.x + 0x8000_0000, t2.y as int);
    let b1 = with_digit(a1, l1.x as int);
    let b2 = with_digit(a2, l2.x as int);
    assert(0 <= a1 < 0x1_0000_0000_0000_0000);
    assert(0 <= b1 < 0x1_0000_0000_0000_0000_0000_0000);
    assert(0 <= lot_code(t1, l1) < 0x1_0000_0000_0000_0000_0000_0000_0000_0000);
    if lot_code(t1, l1) == lot_code(t2, l2) {
        lemma_with_digit_injective(b1, l1.y, b2, l2.y);
        lemma_with_digit_injective(a1, l1.x, a2, l2.x);
        lemma_with_digit_injective(t1.x + 0x8000_0000, t1.y, t2.x + 0x8000_0000, t2.y);
    }
}

fn encode(tile: IVec2, lot: IVec2) -> (code: u128)
    ensures
        code == lot_code(tile, lot),
{
    let a: u128 = (tile.x as i64 + 0x8000_0000) as u128;
    let b: u128 = (tile.y as i64 + 0x8000_0000) as u128;
    let c: u128 = (lot.x as i64 + 0x8000_0000) as u128;
    let d: u128 = (lot.y as i64 + 0x8000_0000) as u128;
    ((a * 0x1_0000_0000 + b) * 0x1_0000_0000 + c) * 0x1_0000_0000 + d
}

/// The occupants of every sub-lot, one layer for each plane.
pub struct OccupancyMap {
    material: HashMap<u128, Occupying>,
    ethereal: HashMap<u128, Occupying>,
}

impl View for OccupancyMap {
    type V = Map<LotKey, Occupying>;

    closed spec fn view(&self) -> Map<LotKey, Occupying> {
        Map::new(
            |k: LotKey| self.layer(k.plane).contains_key(lot_code(k.tile, k.lot) as u128),
            |k: LotKey| self.layer(k.plane)[lot_code(k.tile, k.lot) as u128],
        )
    }
}

impl OccupancyMap {
    spec fn layer(&self, plane: Plane) -> Map<u128, Occupying> {
        match plane {
            Plane::Material => self.material@,
            Plane::Ethereal => self.ethereal@,
        }
    }

    /// A map on which nothing stands.
    pub fn new() -> (map: OccupancyMap)
        ensures
            map@ == Map::<LotKey, Occupying>::empty(),
    {
        let map = OccupancyMap { material: HashMap::new(), ethereal: HashMap::new() };
        assert(map@ =~= Map::<LotKey, Occupying>::empty());
        map
    }

    /// What stands on a lot, if anything.
    pub fn get(&self, tile: IVec2, plane: Plane, lot: IVec2) -> (occupant: Option<Occupying>)
        ensures
            occupant.is_some() == self@.contains_key(lot_key(tile, plane, lot)),
            occupant.is_some() ==> occupant.unwrap() == self@[lot_key(tile, plane, lot)],
    {
        let code = encode(tile, lot);
        let found = match plane {
            Plane::Material => self.material.get(&code),
            Plane::Ethereal => self.ethereal.get(&code),
        };
        match found {
            Some(occupant) => Some(*occupant),
            None => None,
        }
    }

    /// Places `occupant` on a lot unless the lot is taken. Returns whether
    /// it was placed; a taken lot keeps its occupant.
    pub fn try_place(&mut self, tile: IVec2, plane: Plane, lot: IVec2, occupant: Occupying) -> (done:
        bool)
        ensures
            done == !old(self)@.contains_key(lot_key(tile, plane, lot)),
            final(self)@ == placed(old(self)@, lot_key(tile, plane, lot), occupant),
    {
        let code = encode(tile, lot);
        let taken = match plane {
            Plane::Material => self.material.contains_key(&code),
            Plane::Ethereal => self.ethereal.contains_key(&code),
        };
        if taken {
            return false;
        }
        match plane {
            Plane::Material => {
                self.material.insert(code, occupant);
            },
            Plane::Ethereal => {
                self.ethereal.insert(code, occupant);
            },
        }
        proof {
            let key = lot_key(tile, plane, lot);
            assert forall|k: LotKey| k != key implies lot_code(k.tile, k.lot) != lot_code(
                tile,
                lot,
            ) || k.plane != plane by {
                lemma_lot_code_injective(k.tile, k.lot, tile, lot);
            }
            assert forall|k: LotKey| true implies 0 <= #[trigger] lot_code(k.tile, k.lot)
                <= u128::MAX by {
                lemma_lot_code_injective(k.tile, k.lot, tile, lot);
            }
            assert(self@ =~= old(self)@.insert(key, occupant));
        }
        true
    }

    /// Puts `occupant` on a lot, whatever stood there.
    pub fn set(&mut self, tile: IVec2, plane: Plane, lot: IVec2, occupant: Occupying)
        ensures
            final(self)@ == old(self)@.insert(lot_key(tile, plane, lot), occupant),
    {
        let code = encode(tile, lot);
        match plane {
            Plane::Material => {
                self.material.insert(code, occupant);
            },
            Plane::Ethereal => {
                self.ethereal.insert(code, occupant);
            },
        }
        proof {
            let key = lot_key(tile, plane, lot);
            assert forall|k: LotKey| k != key implies lot_code(k.tile, k.lot) != lot_code(
                tile,
                lot,
            ) || k.plane != plane by {
                lemma_lot_code_injective(k.tile, k.lot, tile, lot);
            }
            assert forall|k: LotKey| true implies 0 <= #[trigger] lot_code(k.tile, k.lot)
                <= u128::MAX by {
                lemma_lot_code_injective(k.tile, k.lot, tile, lot);
            }
            assert(self@ =~= old(self)@.insert(key, occupant));
        }
    }

    /// Whether a tower may be built on a lot: it is empty, or holds scenery.
    pub fn is_buildable(&self, tile: IVec2, plane: Plane, lot: IVec2) -> (free: bool)
        ensures
            free == buildable(self@, lot_key(tile, plane, lot)),
    {
        match self.get(tile, plane, lot) {
            Some(occupant) => occupant.is_free(),
            None => true,
        }
    }

    /// Whether agents cross a lot: it is empty, or holds nothing that stops
    /// them.
    pub fn is_traversable(&self, tile: IVec2, plane: Plane, lot: IVec2) -> (free: bool)
        ensures
            free == traversable(self@, lot_key(tile, plane, lot)),
    {
        match self.get(tile, plane, lot) {
            Some(occupant) => occupant.is_path_free(),
            None => true,
        }
    }

    /// The map a game starts from.
    pub fn starting() -> (map: OccupancyMap)
        ensures
            map@ == starting_lots(),
    {
        let mut map = OccupancyMap::new();
        let middle = IVec2::new((LOW_DEF / 2) as i32, (LOW_DEF / 2) as i32);
        map.set(IVec2::new(0, 0), Plane::Material, middle, Occupying::Crystal);
        map.set(IVec2::new(0, 0), Plane::Ethereal, middle, Occupying::Crystal);
        map
    }

    /// Records the obstacle map of a generated tile: each of its cells
    /// becomes a mountain on both planes, whatever stood there.
    pub fn insert_mountains(&mut self, tile: IVec2, mountains: &Vec<IVec2>)
        requires
            forall|n: int| 0 <= n < mountains@.len() ==> LOW_DEF - i32::MAX - 1 <= (
            #[trigger] mountains@[n]).x,
        ensures
            forall|key: LotKey|
                #[trigger] is_mountain_lot(key, tile, mountains@) ==> final(self)@.contains_key(key) && final(self)@[key] == Occupying::Mountain,
            forall|key: LotKey|
                !#[trigger] is_mountain_lot(key, tile, mountains@) ==> (final(self)@.contains_key(key) == old(self)@.contains_key(key)) && (old(self)@.contains_key(key) ==> final(self)@[key] == old(self)@[key]),
    {
        let mut n: usize = 0;
        while n < mountains.len()
            invariant
                n <= mountains@.len(),
                forall|k: int| 0 <= k < mountains@.len() ==> LOW_DEF - i32::MAX - 1 <= (
                #[trigger] mountains@[k]).x,
                forall|key: LotKey|
                    #[trigger] is_mountain_lot(key, tile, mountains@.take(n as int)) ==> self@.contains_key(
                        key,
                    ) && self@[key] == Occupying::Mountain,
                forall|key: LotKey|
                    !#[trigger] is_mountain_lot(key, tile, mountains@.take(n as int)) ==> (self@.contains_key(
                        key,
                    ) == old(self)@.contains_key(key)) && (old(self)@.contains_key(key) ==> self@[key]
                        == old(self)@[key]),
            decreases mountains@.len() - n,
        {
            let cell = mountains[n];
            let lot = IVec2::new((LOW_DEF as i32 - 1) - cell.x, cell.y);
            let ghost before = self@;
            self.set(tile, Plane::Material, lot, Occupying::Mountain);
            self.set(tile, Plane::Ethereal, lot, Occupying::Mountain);
            proof {
                let early = mountains@.take(n as int);
                let late = mountains@.take(n + 1);
                assert(lot == mirrored(cell));
                assert(late[n as int] == cell);
                assert forall|key: LotKey|
                    #[trigger] is_mountain_lot(key, tile, late) <==> is_mountain_lot(
                        key,
                        tile,
                        early,
                    ) || (
                    key.tile == tile && key.lot == lot) by {
                    if is_mountain_lot(key, tile, early) {
                        let k = choose|k: int|
                            0 <= k < early.len() && key.lot == mirrored(#[trigger] early[k]);
                        assert(late[k] == early[k]);
                    }
                    if is_mountain_lot(key, tile, late) {
                        let k = choose|k: int|
                            0 <= k < late.len() && key.lot == mirrored(#[trigger] late[k]);
                        if k < n {
                            assert(early[k] == late[k]);
                        }
                    }
                }
                assert forall|key: LotKey| key.tile == tile && key.lot == lot implies key
                    == lot_key(tile, Plane::Material, lot) || key == lot_key(
                    tile,
                    Plane::Ethereal,
                    lot,
                ) by {
                    lemma_next_is_an_involution(key.plane);
                }
                assert forall|key: LotKey| #[trigger] is_mountain_lot(key, tile, late) implies self@.contains_key(
                    key,
                ) && self@[key] == Occupying::Mountain by {
                    if !(key.tile == tile && key.lot == lot) {
                        assert(is_mountain_lot(key, tile, early));
                        assert(before.contains_key(key));
                    }
                }
                assert forall|key: LotKey| !#[trigger] is_mountain_lot(key, tile, late) implies (
                self@.contains_key(key) == old(self)@.contains_key(key)) && (old(self)@.contains_key(key) ==> self@[key] == old(self)@[key]) by {
                    assert(!is_mountain_lot(key, tile, early));
                    assert(key != lot_key(tile, Plane::Material, lot));
                    assert(key != lot_key(tile, Plane::Ethereal, lot));
                    assert(self@.contains_key(key) == before.contains_key(key));
                }
            }
            n = n + 1;
        }
        proof {
            assert(mountains@.take(mountains@.len() as int) =~= mountains@);
        }
    }

    /// Builds a tower on a lot of `plane`, and blocks the same lot of the
    /// other plane, if the lot is free to build on and every nest still
    /// reaches its goal with the lot closed. Otherwise nothing changes.
    pub fn build_tower(&mut self, tile: IVec2, lot: IVec2, plane: Plane, nests_reach_goal: bool) -> (built:
        bool)
        ensures
            built == (nests_reach_goal && buildable(old(self)@, lot_key(tile, plane, lot))),
            built ==> final(self)@ == with_tower(old(self)@, tile, lot, plane),
            !built ==> final(self)@ == old(self)@,
    {
        if !nests_reach_goal || !self.is_buildable(tile, plane, lot) {
            return false;
        }
        self.set(tile, plane, lot, Occupying::Tower);
        self.set(tile, plane.next(), lot, Occupying::Block);
        true
    }

    /// The occupants of the lots of a tile on one plane, row by row: each
    /// occupied lot once, a lot `(i, j)` in the order of `i + LOW_DEF * j`.
    pub fn occupants_of_tile(&self, tile: IVec2, plane: Plane) -> (found: Vec<(IVec2, Occupying)>)
        ensures
            forall|k: int|
                0 <= k < found@.len() ==> {
                    let key = lot_key(tile, plane, (#[trigger] found@[k]).0);
                    &&& found@[k].0.is_lot(LOW_DEF as int)
                    &&& self@.contains_key(key)
                    &&& self@[key] == found@[k].1
                },
            forall|lot: IVec2|
                lot.is_lot(LOW_DEF as int) && self@.contains_key(
                    #[trigger] lot_key(tile, plane, lot),
                ) ==> exists|k: int| 0 <= k < found@.len() && (#[trigger] found@[k]).0 == lot,
            forall|a: int, b: int|
                0 <= a < b < found@.len() ==> (#[trigger] found@[a]).0.x + LOW_DEF * found@[a].0.y < (
                #[trigger] found@[b]).0.x + LOW_DEF * found@[b].0.y,
    {
        let mut found: Vec<(IVec2, Occupying)> = Vec::new();
        let mut index: i32 = 0;
        let side: i32 = LOW_DEF as i32;
        while index < side * side
            invariant
                side == LOW_DEF,
                0 <= index <= side * side,
                forall|k: int|
                    0 <= k < found@.len() ==> {
                        let key = lot_key(tile, plane, (#[trigger] found@[k]).0);
                        &&& found@[k].0.is_lot(LOW_DEF as int)
                        &&& found@[k].0.x + side * found@[k].0.y < index
                        &&& self@.contains_key(key)
                        &&& self@[key] == found@[k].1
                    },
                forall|lot: IVec2|
                    lot.is_lot(LOW_DEF as int) && lot.x + side * lot.y < index && self@.contains_key(
                        #[trigger] lot_key(tile, plane, lot),
                    ) ==> exists|k: int| 0 <= k < found@.len() && (#[trigger] found@[k]).0 == lot,
                forall|a: int, b: int|
                    0 <= a < b < found@.len() ==> (#[trigger] found@[a]).0.x + LOW_DEF
                        * found@[a].0.y < (#[trigger] found@[b]).0.x + LOW_DEF * found@[b].0.y,
            decreases side * side - index,
        {
            let lot = IVec2::new(index % side, index / side);
            let ghost early = found@;
            match self.get(tile, plane, lot) {
                Some(occupant) => {
                    found.push((lot, occupant));
                    proof {
                        assert(found@[early.len() as int].0 == lot);
                        assert forall|other: IVec2|
                            other.is_lot(LOW_DEF as int) && other.x + side * other.y < index + 1
                                && self@.contains_key(
                                #[trigger] lot_key(tile, plane, other),
                            ) implies exists|k: int|
                            0 <= k < found@.len() && (#[trigger] found@[k]).0 == other by {
                            if other.x + side * other.y < index {
                                let k = choose|k: int|
                                    0 <= k < early.len() && (#[trigger] early[k]).0 == other;
                                assert(found@[k].0 == other);
                            } else {
                                assert(other == lot);
                            }
                        }
                    }
                },
                None => {
                    proof {
                        assert forall|other: IVec2|
                            other.is_lot(LOW_DEF as int) && other.x + side * other.y == index
                            implies other == lot by {}
                    }
                },
            }
            index = index + 1;
        }
        found
    }
}

} // verus!
