//! Streaming of tiles around the camera: which lots to fill, which
//! generation jobs to start, which tiles to track.

use crate::coords::IVec2;
use crate::terra::Plane;
use vstd::prelude::*;

verus! {

/// Generation jobs that may run at once: the capacity of the channel that
/// carries finished terrain back.
pub const CHANNEL_SIZE: usize = 20;

/// A tile that waits for its terrain.
#[derive(Debug, Clone, Copy, PartialEq, Eq, Structural)]
pub struct EmptyLot {
    pub x: i32,
    pub z: i32,
    pub offscreen: bool,
    pub loading: bool,
}

impl EmptyLot {
    /// A lot for which no generation has been asked yet.
    pub fn new(position: IVec2, offscreen: bool) -> (lot: EmptyLot)
        ensures
            lot.x == position.x,
            lot.z == position.y,
            lot.offscreen == offscreen,
            !lot.loading,
    {
        EmptyLot { x: position.x, z: position.y, offscreen, loading: false }
    }
}

/// A tile that shows its terrain on one plane.
#[derive(Debug, Clone, Copy, PartialEq, Eq, Structural)]
pub struct FilledLot {
    pub x: i32,
    pub z: i32,
    pub plane: Plane,
}

/// What to do with an empty lot on one tick.
#[derive(Debug, Clone, Copy, PartialEq, Eq, Structural)]
pub enum LotAction {
    /// The terrain is ready and the lot is on screen: attach the terrain,
    /// the lot is filled.
    Attach(FilledLot),
    /// The terrain is ready but the lot is off screen: forget the lot.
    Discard,
    /// Start a generation job for the lot's tile.
    Dispatch,
    /// Leave the lot as it is.
    Wait,
}

/// What happens to the count of running jobs.
pub enum StreamEvent {
    /// An empty lot is looked at.
    Offer { cached: bool, loading: bool },
    /// A finished terrain is taken from the channel.
    Completed,
}

/// Whether looking at an empty lot starts a job: its terrain is neither
/// ready nor asked for, and a slot is free.
pub open spec fn dispatches(cached: bool, loading: bool, jobs: nat) -> bool {
    !cached && !loading && jobs < CHANNEL_SIZE
}

/// The action for an empty lot.
pub open spec fn lot_action(lot: EmptyLot, cached: bool, plane: Plane, jobs: nat) -> LotAction {
    if cached {
        if lot.offscreen {
            LotAction::Discard
        } else {
            LotAction::Attach(FilledLot { x: lot.x, z: lot.z, plane })
        }
    } else if dispatches(cached, lot.loading, jobs) {
        LotAction::Dispatch
    } else {
        LotAction::Wait
    }
}

/// The count of running jobs after an event.
pub open spec fn jobs_after(jobs: nat, event: StreamEvent) -> nat {
    match event {
        StreamEvent::Offer { cached, loading } => if dispatches(cached, loading, jobs) {
            jobs + 1
        } else {
            jobs
        },
        StreamEvent::Completed => if jobs > 0 {
            (jobs - 1) as nat
        } else {
            0
        },
    }
}

/// The count of running jobs after a run of events, from none running.
pub open spec fn jobs_after_all(events: Seq<StreamEvent>) -> nat
    decreases events.len(),
{
    if events.len() == 0 {
        0
    } else {
        jobs_after(jobs_after_all(events.drop_last()), events.last())
    }
}

/// Whatever the lots looked at and the terrains taken, and in whatever
/// order, no more jobs run at once than the channel holds.
pub proof fn lemma_jobs_never_exceed_capacity(events: Seq<StreamEvent>)
    ensures
        jobs_after_all(events) <= CHANNEL_SIZE,
    decreases events.len(),
{
    if events.len() > 0 {
        lemma_jobs_never_exceed_capacity(events.drop_last());
    }
}

/// Counts the generation jobs that run.
pub struct TileStreamer {
    in_transit: usize,
}

impl TileStreamer {
    #[verifier::type_invariant]
    spec fn bounded(self) -> bool {
        self.in_transit <= CHANNEL_SIZE
    }

    /// The jobs that run.
    pub closed spec fn jobs(&self) -> nat {
        self.in_transit as nat
    }

    /// A streamer with no job running.
    pub fn new() -> (streamer: TileStreamer)
        ensures
            streamer.jobs() == 0,
    {
        TileStreamer { in_transit: 0 }
    }

    /// The jobs that run: never more than the channel holds.
    pub fn in_transit(&self) -> (jobs: usize)
        ensures
            jobs == self.jobs(),
            jobs <= CHANNEL_SIZE,
    {
        proof {
            use_type_invariant(self);
        }
        self.in_transit
    }

    /// Decides what to do with an empty lot, given whether the terrain of
    /// its tile is ready on the active plane. When a job is to start, the
    /// lot is marked as loading and the job is counted.
    pub fn fill_step(&mut self, lot: &mut EmptyLot, cached: bool, plane: Plane) -> (action:
        LotAction)
        ensures
            action == lot_action(*old(lot), cached, plane, old(self).jobs()),
            final(self).jobs() == jobs_after(
                old(self).jobs(),
                StreamEvent::Offer { cached, loading: old(lot).loading },
            ),
            final(self).jobs() <= CHANNEL_SIZE,
            final(lot).x == old(lot).x,
            final(lot).z == old(lot).z,
            final(lot).offscreen == old(lot).offscreen,
            final(lot).loading == (old(lot).loading || action == LotAction::Dispatch),
    {
        proof {
            use_type_invariant(&*self);
        }
        if cached {
            if lot.offscreen {
                LotAction::Discard
            } else {
                LotAction::Attach(FilledLot { x: lot.x, z: lot.z, plane })
            }
        } else if !lot.loading && self.in_transit < CHANNEL_SIZE {
            lot.loading = true;
            self.in_transit = self.in_transit + 1;
            LotAction::Dispatch
        } else {
            LotAction::Wait
        }
    }

    /// Counts a job as finished: its terrain was taken from the channel.
    pub fn job_completed(&mut self)
        requires
            old(self).jobs() > 0,
        ensures
            final(self).jobs() == old(self).jobs() - 1,
            final(self).jobs() == jobs_after(old(self).jobs(), StreamEvent::Completed),
    {
        proof {
            use_type_invariant(&*self);
        }
        self.in_transit = self.in_transit - 1;
    }
}

/// The tiles around the camera that may be on screen: `2 * span` columns
/// from `camera.x - span`, and in each column `span + span / 2` rows from
/// `camera.y - span / 2`.
pub open spec fn is_candidate(tile: IVec2, camera: IVec2, span: int, k: int) -> bool {
    let rows = span + span / 2;
    tile.x == camera.x - span + k / rows && tile.y == camera.y - span / 2 + k % rows
}

/// Lists the tiles around the camera that may be on screen, column by
/// column. A span that is not positive gives no tile.
pub fn candidate_tiles(camera: IVec2, span: i32) -> (tiles: Vec<IVec2>)
    requires
        i32::MIN <= camera.x - span && camera.x + span <= i32::MAX,
        i32::MIN <= camera.y - span && camera.y + span <= i32::MAX,
    ensures
        span <= 0 ==> tiles@.len() == 0,
        span > 0 ==> tiles@.len() == 2 * span * (span + span / 2),
        forall|k: int|
            0 <= k < tiles@.len() ==> is_candidate(#[trigger] tiles@[k], camera, span as int, k),
{
    let mut tiles: Vec<IVec2> = Vec::new();
    if span <= 0 {
        return tiles;
    }
    let half: i32 = span / 2;
    let ghost rows: int = span + half;
    let mut i: i32 = -span;
    while i < span
        invariant
            0 < span,
            half == span / 2,
            rows == span + half,
            -span <= i <= span,
            i32::MIN <= camera.x - span && camera.x + span <= i32::MAX,
            i32::MIN <= camera.y - span && camera.y + span <= i32::MAX,
            tiles@.len() == (i + span) * rows,
            forall|k: int|
                0 <= k < tiles@.len() ==> is_candidate(#[trigger] tiles@[k], camera, span as int, k),
        decreases span - i,
    {
        let mut j: i32 = -half;
        while j < span
            invariant
                0 < span,
                half == span / 2,
                rows == span + half,
                -span <= i < span,
                -half <= j <= span,
                i32::MIN <= camera.x - span && camera.x + span <= i32::MAX,
                i32::MIN <= camera.y - span && camera.y + span <= i32::MAX,
                tiles@.len() == (i + span) * rows + (j + half),
                forall|k: int|
                    0 <= k < tiles@.len() ==> is_candidate(#[trigger] tiles@[k], camera, span as int, k),
            decreases span - j,
        {
            proof {
                let k = tiles@.len() as int;
                assert(k == rows * (i + span) + (j + half)) by (nonlinear_arith)
                    requires
                        k == (i + span) * rows + (j + half),
                ;
                vstd::arithmetic::div_mod::lemma_fundamental_div_mod_converse(
                    k,
                    rows,
                    i + span,
                    j + half,
                );
            }
            tiles.push(IVec2::new(camera.x + i, camera.y + j));
            j = j + 1;
        }
        proof {
            assert((i + span) * rows + rows == (i + 1 + span) * rows) by (nonlinear_arith);
        }
        i = i + 1;
    }
    proof {
        assert((span + span) * rows == 2 * span * (span + span / 2)) by (nonlinear_arith)
            requires
                rows == span + span / 2,
        ;
    }
    tiles
}

/// A tile that is lots: the entity that stands for it, the plane it was
/// spawned on, and whether it projects onto the screen, where that is
/// known.
#[derive(Debug, Clone, Copy, PartialEq, Eq, Structural)]
pub struct TrackedLot {
    pub tile: IVec2,
    pub entity: u64,
    pub plane: Plane,
    pub on_screen: Option<bool>,
}

/// A tracked tile stays while it is on screen on the active plane, or
/// while its place on screen is unknown.
pub open spec fn stays(lot: TrackedLot, active: Plane) -> bool {
    match lot.on_screen {
        None => true,
        Some(visible) => visible && lot.plane == active,
    }
}

/// The test for the tiles that stay.
pub open spec fn stays_on(active: Plane) -> spec_fn(TrackedLot) -> bool {
    |lot: TrackedLot| stays(lot, active)
}

/// The test for the tiles that are dropped.
pub open spec fn leaves_on(active: Plane) -> spec_fn(TrackedLot) -> bool {
    |lot: TrackedLot| !stays(lot, active)
}

/// The entity that stands for a tile.
pub open spec fn entity_of() -> spec_fn(TrackedLot) -> u64 {
    |lot: TrackedLot| lot.entity
}

/// Whether one of `lots` stands for `tile`.
pub open spec fn tracks(lots: Seq<TrackedLot>, tile: IVec2) -> bool {
    exists|k: int| 0 <= k < lots.len() && #[trigger] lots[k].tile == tile
}

/// The outcome of a tick: the tracked tiles that stay, the entities to
/// remove, and the tiles to spawn as empty lots on the active plane.
pub struct Reconciliation {
    pub keep: Vec<TrackedLot>,
    pub despawn: Vec<u64>,
    pub spawn: Vec<IVec2>,
}

fn tracks_tile(lots: &Vec<TrackedLot>, tile: IVec2) -> (found: bool)
    ensures
        found == tracks(lots@, tile),
{
    let mut k: usize = 0;
    while k < lots.len()
        invariant
            k <= lots@.len(),
            forall|n: int| 0 <= n < k ==> (#[trigger] lots@[n]).tile != tile,
        decreases lots@.len() - k,
    {
        if lots[k].tile == tile {
            return true;
        }
        k = k + 1;
    }
    false
}

fn holds_tile(tiles: &Vec<IVec2>, tile: IVec2) -> (found: bool)
    ensures
        found == tiles@.contains(tile),
{
    let mut k: usize = 0;
    while k < tiles.len()
        invariant
            k <= tiles@.len(),
            forall|n: int| 0 <= n < k ==> #[trigger] tiles@[n] != tile,
        decreases tiles@.len() - k,
    {
        if tiles[k] == tile {
            return true;
        }
        k = k + 1;
    }
    false
}

/// Reconciles the tracked tiles with the tiles wanted on screen. Tracked
/// tiles that left the screen or belong to the other plane are dropped,
/// and their entities removed unless the planes are being switched; wanted
/// tiles that no kept tile stands for are spawned, each once.
pub fn reconcile(lots: &Vec<TrackedLot>, wanted: &Vec<IVec2>, active: Plane, switching: bool) -> (r:
    Reconciliation)
    ensures
        r.keep@ == lots@.filter(stays_on(active)),
        switching ==> r.despawn@.len() == 0,
        !switching ==> r.despawn@ == lots@.filter(leaves_on(active)).map_values(entity_of()),
        r.spawn@.no_duplicates(),
        forall|tile: IVec2|
            r.spawn@.contains(tile) <==> wanted@.contains(tile) && !tracks(r.keep@, tile),
{
    let mut keep: Vec<TrackedLot> = Vec::new();
    let mut despawn: Vec<u64> = Vec::new();
    let mut i: usize = 0;
    proof {
        assert(lots@.take(0) =~= Seq::<TrackedLot>::empty());
        lots@.take(0).lemma_all_neg_filter_empty(stays_on(active));
        lots@.take(0).lemma_all_neg_filter_empty(leaves_on(active));
        assert(Seq::<TrackedLot>::empty().map_values(entity_of()) =~= Seq::<u64>::empty());
    }
    while i < lots.len()
        invariant
            i <= lots@.len(),
            keep@ == lots@.take(i as int).filter(stays_on(active)),
            switching ==> despawn@.len() == 0,
            !switching ==> despawn@ == lots@.take(i as int).filter(
                leaves_on(active),
            ).map_values(entity_of()),
        decreases lots@.len() - i,
    {
        let lot = lots[i];
        let lot_stays = match lot.on_screen {
            None => true,
            Some(visible) => visible && lot.plane == active,
        };
        proof {
            let before = lots@.take(i as int);
            lots@.lemma_take_succ_push(i as int);
            before.lemma_filter_push(lot, stays_on(active));
            before.lemma_filter_push(lot, leaves_on(active));
            before.filter(leaves_on(active)).lemma_push_map_commute(entity_of(), lot);
        }
        if lot_stays {
            keep.push(lot);
        } else if !switching {
            despawn.push(lot.entity);
        }
        i = i + 1;
    }
    proof {
        lots@.lemma_take_len();
    }
    let mut spawn: Vec<IVec2> = Vec::new();
    let mut j: usize = 0;
    while j < wanted.len()
        invariant
            j <= wanted@.len(),
            spawn@.no_duplicates(),
            forall|tile: IVec2|
                spawn@.contains(tile) <==> wanted@.take(j as int).contains(tile) && !tracks(
                    keep@,
                    tile,
                ),
        decreases wanted@.len() - j,
    {
        let tile = wanted[j];
        let fresh = !tracks_tile(&keep, tile) && !holds_tile(&spawn, tile);
        let ghost early = spawn@;
        let ghost before = wanted@.take(j as int);
        if fresh {
            spawn.push(tile);
        }
        proof {
            wanted@.lemma_take_succ_push(j as int);
            let after = wanted@.take(j + 1);
            assert(after == before.push(tile));
            assert forall|t: IVec2|
                spawn@.contains(t) <==> after.contains(t) && !tracks(keep@, t) by {
                if before.contains(t) {
                    let n = choose|n: int| 0 <= n < before.len() && before[n] == t;
                    assert(after[n] == t);
                }
                assert(after[before.len() as int] == tile);
                if after.contains(t) && t != tile {
                    let n = choose|n: int| 0 <= n < after.len() && after[n] == t;
                    assert(before[n] == t);
                }
                if early.contains(t) && fresh {
                    let n = choose|n: int| 0 <= n < early.len() && early[n] == t;
                    assert(spawn@[n] == t);
                }
                if fresh {
                    assert(spawn@[early.len() as int] == tile);
                    if spawn@.contains(t) && t != tile {
                        let n = choose|n: int| 0 <= n < spawn@.len() && spawn@[n] == t;
                        assert(early[n] == t);
                    }
                }
            }
        }
        j = j + 1;
    }
    proof {
        wanted@.lemma_take_len();
    }
    Reconciliation { keep, despawn, spawn }
}

/// The axis a tile turns about while the planes are switched.
#[derive(Debug, Clone, Copy, PartialEq, Eq, Structural)]
pub enum FlipAxis {
    X,
    Z,
}

/// How a filled tile turns while the planes are switched.
#[derive(Debug, Clone, Copy, PartialEq, Eq, Structural)]
pub struct Flip {
    pub axis: FlipAxis,
    /// Whether the tile starts from half a turn: it belongs to the plane
    /// that comes into view.
    pub from_half_turn: bool,
}

/// Tiles turn about the z axis where the sum of their coordinates is
/// even, about the x axis elsewhere; those of the active plane start from
/// half a turn.
pub open spec fn flip_of(lot: FilledLot, active: Plane) -> Flip {
    Flip {
        axis: if (lot.x + lot.z) % 2 == 0 {
            FlipAxis::Z
        } else {
            FlipAxis::X
        },
        from_half_turn: lot.plane == active,
    }
}

/// How a filled tile turns while the planes are switched.
pub fn flip(lot: FilledLot, active: Plane) -> (turn: Flip)
    ensures
        turn == flip_of(lot, active),
{
    let sum: i64 = lot.x as i64 + lot.z as i64;
    let even = (sum + 0x1_0000_0000) % 2 == 0;
    Flip { axis: if even { FlipAxis::Z } else { FlipAxis::X }, from_half_turn: lot.plane == active }
}

/// Whether a filled tile goes once the planes are switched: it shows the
/// plane that is no longer active.
pub fn leaves_after_switch(lot: FilledLot, active: Plane) -> (leaves: bool)
    ensures
        leaves == (lot.plane != active),
{
    lot.plane != active
}

} // verus!
