//! The tick of the simulation, and what follows a change of a tile: markers
//! for the tiles around it and outlines for the renderer.

use crate::flow::{
    flow_liquid_tile, flow_pass, flow_step, flowing_order, lemma_flow_keeps_wf,
    lemma_flow_pass_of_lone_liquid, lemma_flow_pass_of_none,
};
use crate::gravity::{
    apply_gravity, fall_coord, falling_order, gravity_pass, gravity_step, lemma_gravity_keeps_wf,
    lemma_fall_straight, lemma_gravity_pass_of_lone_tile, lemma_gravity_pass_of_none,
    lemma_gravity_step_falls_one_row,
};
use crate::grid::{ChunkStore, Coordinate, CreateTileEvent, MapTile};
use crate::order::{is_ascending, lemma_ascending_unique};
use crate::tileoutline::{ConnectedNeighbors, OUTLINE_ENCLOSED};
use crate::tiles::{FallingTile, Marker};
use crate::tiletypes::{Liquid, TileType};
use crate::world::{is_marked, lemma_try_set_tile_keeps_wf, marked_keys, tile_ok, World};
use vstd::prelude::*;

verus! {

/// Momentum of a liquid that has just met a neighbour of a clearly
/// different level.
pub const INITIAL_LIQUID_MOMENTUM: u8 = 200;

/// Marks a liquid tile that the next flow pass looks at, with the column it
/// is in.
#[derive(Clone, Copy, Debug, PartialEq, Eq, Structural)]
pub struct FlowingTile {
    pub x: i32,
}

/// Tells the collaborators that the tile at this position, or one next to
/// it, has changed.
#[derive(Clone, Copy, Debug)]
pub struct UpdateTileEvent(pub Coordinate);

/// Asks the renderer to look at the outline of the tile at this position.
#[derive(Clone, Copy, Debug)]
pub struct UpdateOutlineSpriteEvent(pub Coordinate);

/// The world after the tick `tick`: the gravity pass, then the flow pass.
/// The flow pass visits the cells that carry a flowing marker once the
/// gravity pass is over, so a liquid that has just stopped falling flows in
/// the same tick.
pub open spec fn tick_world(w: World, tick: u64) -> World {
    let fallen = gravity_pass(w, falling_order(w));
    flow_pass(fallen, flowing_order(fallen, tick), tick)
}

/// One tick of the simulation: gravity first, then flow.
pub fn tick(store: &mut ChunkStore, tick: u64)
    requires
        old(store).wf(),
    ensures
        final(store).wf(),
        final(store)@ == tick_world(old(store)@, tick),
{
    apply_gravity(store);
    flow_liquid_tile(store, tick);
}

/// Whether the cell at `(x, y)` is loaded and holds a solid tile.
pub open spec fn is_solid_at(w: World, x: int, y: int) -> bool {
    w.loaded(x, y) && w.kind(x, y).spec_is_solid()
}

/// Which of the eight cells around `(x, y)` hold a solid tile. A cell of a
/// chunk that is not loaded counts as not solid.
pub open spec fn connected_at(w: World, x: int, y: int) -> ConnectedNeighbors {
    ConnectedNeighbors {
        top_left: is_solid_at(w, x - 1, y + 1),
        top: is_solid_at(w, x, y + 1),
        top_right: is_solid_at(w, x + 1, y + 1),
        left: is_solid_at(w, x - 1, y),
        right: is_solid_at(w, x + 1, y),
        bottom: is_solid_at(w, x, y - 1),
        bottom_left: is_solid_at(w, x - 1, y - 1),
        bottom_right: is_solid_at(w, x + 1, y - 1),
    }
}

/// The outline of a tile of kind `tile_type` at `(x, y)`: none for an empty
/// cell and for a liquid, else the one that its solid neighbours give it.
pub open spec fn outline_for(w: World, tile_type: TileType, x: int, y: int) -> nat {
    if !tile_type.spec_is_visible() || tile_type.spec_is_liquid() {
        OUTLINE_ENCLOSED as nat
    } else {
        connected_at(w, x, y).outline_id()
    }
}

/// The world with `outline_id` recorded for the cell at `(x, y)`, where
/// that cell is loaded.
pub open spec fn with_outline(w: World, x: int, y: int, outline_id: usize) -> World {
    if w.loaded(x, y) {
        w.put(x, y, MapTile { outline_id, ..w.tile(x, y) })
    } else {
        w
    }
}

/// Whether the cell `(dx, dy)` away from `coord` is loaded and solid.
fn solid_at(map: &ChunkStore, coord: Coordinate, dx: i32, dy: i32) -> (solid: bool)
    requires
        map.wf(),
        coord is Tile,
    ensures
        solid == is_solid_at(map@, coord.x() + dx, coord.y() + dy),
{
    proof {
        map.lemma_view_wf();
    }
    match coord.checked_moved(dx, dy) {
        Some(cell) => match map.get_tile(cell) {
            Ok(tile) => tile.tile_type.is_solid(),
            Err(_) => false,
        },
        None => false,
    }
}

/// Works out the outline of the tile `maptile` from its neighbours and
/// records it where it differs from the outline that `maptile` carries. The
/// result is the new outline, for the renderer to draw, or `None` where the
/// outline has stayed the same.
pub fn update_outline_sprite(store: &mut ChunkStore, maptile: MapTile) -> (changed: Option<usize>)
    requires
        old(store).wf(),
        maptile.tile_coord is Tile,
    ensures
        final(store).wf(),
        changed == (if outline_for(
            old(store)@,
            maptile.tile_type,
            maptile.tile_coord.x(),
            maptile.tile_coord.y(),
        ) == maptile.outline_id {
            None
        } else {
            Some(
                outline_for(
                    old(store)@,
                    maptile.tile_type,
                    maptile.tile_coord.x(),
                    maptile.tile_coord.y(),
                ) as usize,
            )
        }),
        final(store)@ == (match changed {
            Some(outline_id) => with_outline(
                old(store)@,
                maptile.tile_coord.x(),
                maptile.tile_coord.y(),
                outline_id,
            ),
            None => old(store)@,
        }),
{
    let coord = maptile.tile_coord;
    let outline_id = if !maptile.tile_type.is_visible() || maptile.tile_type.is_liquid() {
        OUTLINE_ENCLOSED
    } else {
        let mut connected = ConnectedNeighbors::new();
        connected.bottom_left = solid_at(store, coord, -1, -1);
        connected.left = solid_at(store, coord, -1, 0);
        connected.top_left = solid_at(store, coord, -1, 1);
        connected.bottom = solid_at(store, coord, 0, -1);
        connected.top = solid_at(store, coord, 0, 1);
        connected.bottom_right = solid_at(store, coord, 1, -1);
        connected.right = solid_at(store, coord, 1, 0);
        connected.top_right = solid_at(store, coord, 1, 1);
        connected.get_outline_id()
    };
    if maptile.outline_id == outline_id {
        return None;
    }
    store.set_outline_id(coord, outline_id);
    Some(outline_id)
}

/// Handles one request to look at an outline: the outline of the tile at
/// the position is worked out and recorded as in `update_outline_sprite`.
/// Nothing happens where the chunk is not loaded.
pub fn update_outline_sprite_event(store: &mut ChunkStore, event: UpdateOutlineSpriteEvent) -> (changed:
    Option<usize>)
    requires
        old(store).wf(),
        event.0 is Tile,
    ensures
        final(store).wf(),
        !old(store)@.loaded(event.0.x(), event.0.y()) ==> changed is None && final(store)@ == old(
            store,
        )@,
        old(store)@.loaded(event.0.x(), event.0.y()) ==> changed == (if outline_for(
            old(store)@,
            old(store)@.kind(event.0.x(), event.0.y()),
            event.0.x(),
            event.0.y(),
        ) == old(store)@.tile(event.0.x(), event.0.y()).outline_id {
            None
        } else {
            Some(
                outline_for(
                    old(store)@,
                    old(store)@.kind(event.0.x(), event.0.y()),
                    event.0.x(),
                    event.0.y(),
                ) as usize,
            )
        }) && final(store)@ == (match changed {
            Some(outline_id) => with_outline(old(store)@, event.0.x(), event.0.y(), outline_id),
            None => old(store)@,
        }),
{
    proof {
        store.lemma_view_wf();
    }
    match store.get_tile(event.0) {
        Ok(maptile) => update_outline_sprite(store, maptile),
        Err(_) => None,
    }
}

/// Whether a liquid of another kind lies on the cell at `(x, y)`.
pub open spec fn is_covered(w: World, x: int, y: int) -> bool {
    w.loaded(x, y + 1) && w.kind(x, y + 1).spec_is_liquid() && !w.kind(x, y + 1).spec_same_kind(
        w.kind(x, y),
    )
}

/// The world after the notification for `(x, y)` has been handled: a
/// weighted tile there starts to fall, and the outline of the tile is
/// brought up to date.
pub open spec fn update_step(w: World, x: int, y: int) -> World {
    if !w.loaded(x, y) {
        w
    } else {
        let tile = w.tile(x, y);
        let marked = if tile.tile_type.spec_is_weighted() {
            w.mark(x, y, Marker::Falling(FallingTile { y: y as i32 }))
        } else {
            w
        };
        let outline_id = outline_for(w, tile.tile_type, x, y);
        if outline_id == tile.outline_id {
            marked
        } else {
            with_outline(marked, x, y, outline_id as usize)
        }
    }
}

/// The request that handling the notification for `(x, y)` raises: a
/// liquid that shows whether it is covered, and shows it wrongly, asks to be
/// put anew with the right sign.
pub open spec fn override_request(w: World, x: int, y: int) -> Option<CreateTileEvent> {
    if !w.loaded(x, y) {
        None
    } else {
        let tile = w.tile(x, y);
        match tile.tile_type.liquid_of() {
            Some(liquid) => if is_covered(w, x, y) != liquid.sprite_override {
                Some(
                    CreateTileEvent {
                        coord: tile.tile_coord,
                        new_tile_type: tile.tile_type.spec_with_liquid(
                            Liquid { sprite_override: is_covered(w, x, y), ..liquid },
                        ),
                        prev_maptile: Some(tile),
                    },
                )
            } else {
                None
            },
            None => None,
        }
    }
}

/// Handles one notification: a weighted tile at its position gets a falling
/// marker, the outline of the tile is worked out anew, and a liquid that
/// shows wrongly whether another liquid lies on it raises the request that
/// puts it right. Nothing happens where the chunk is not loaded.
pub fn update_tile(store: &mut ChunkStore, event: UpdateTileEvent) -> (request: Option<
    CreateTileEvent,
>)
    requires
        old(store).wf(),
        event.0 is Tile,
    ensures
        final(store).wf(),
        final(store)@ == update_step(old(store)@, event.0.x(), event.0.y()),
        request == override_request(old(store)@, event.0.x(), event.0.y()),
{
    proof {
        store.lemma_view_wf();
    }
    let coord = event.0;
    let tile = match store.get_tile(coord) {
        Ok(tile) => tile,
        Err(_) => {
            return None;
        },
    };
    let covered = match coord.checked_moved(0, 1) {
        Some(above_coord) => match store.get_tile(above_coord) {
            Ok(above) => above.tile_type.is_liquid() && !above.tile_type.same_kind(tile.tile_type),
            Err(_) => false,
        },
        None => false,
    };
    if tile.tile_type.is_weighted() {
        store.set_marker(coord, Marker::Falling(FallingTile { y: coord.y_i32() }));
    }
    let ghost marked = store@;
    proof {
        assert(connected_at(marked, coord.x(), coord.y()) == connected_at(
            old(store)@,
            coord.x(),
            coord.y(),
        ));
    }
    let _ = update_outline_sprite(store, tile);
    match tile.tile_type.get_liquid() {
        Ok(liquid) => {
            if covered != liquid.sprite_override {
                Some(
                    CreateTileEvent::new(
                        tile.tile_coord,
                        tile.tile_type.with_liquid(
                            Liquid {
                                level: liquid.level,
                                flowing_right: liquid.flowing_right,
                                momentum: liquid.momentum,
                                sprite_override: covered,
                            },
                        ),
                        Some(tile),
                    ),
                )
            } else {
                None
            }
        },
        Err(_) => None,
    }
}

/// Handling a notification twice is handling it once: what it brings up to
/// date is worked out from the tiles alone, so a second notification for the
/// same cell finds nothing left to do.
pub proof fn lemma_update_step_idempotent(w: World, x: int, y: int)
    ensures
        update_step(update_step(w, x, y), x, y) == update_step(w, x, y),
{
    if w.loaded(x, y) {
        let once = update_step(w, x, y);
        let tile = w.tile(x, y);
        assert(once.loaded(x, y));
        assert(once.kind(x, y) == tile.tile_type);
        assert(connected_at(once, x, y) == connected_at(w, x, y));
        let twice = update_step(once, x, y);
        assert(twice.tiles =~= once.tiles);
        assert(twice =~= once);
    }
}

/// A liquid at rest is woken by a change next to it: `set_tile` notifies
/// the eight cells around the changed one, and the notification for a cell
/// that holds a weighted tile gives that tile a falling marker, from which
/// a liquid that cannot fall goes on to flow.
pub proof fn lemma_update_wakes_weighted(w: World, x: int, y: int)
    requires
        w.loaded(x, y),
        w.kind(x, y).spec_is_weighted(),
    ensures
        update_step(w, x, y).tile(x, y).marker == Marker::Falling(FallingTile { y: y as i32 }),
        update_step(w, x, y).kind(x, y) == w.kind(x, y),
{
}

/// A lone falling solid falls one row per tick. Where the cell at `(x, y)`
/// is the only marked cell of the world and holds a solid, a tick is the
/// gravity step for that cell and nothing more. Where the cell below is
/// free, the tile is one row down after the tick and is again the only
/// marked cell, so the next tick does the same one row further down; where
/// the tile finds no landing cell, it stays, and no cell is marked any more.
pub proof fn lemma_tick_drops_lone_solid(w: World, x: int, y: int, tick: u64)
    requires
        w.wf(),
        is_marked(w, x, y, true),
        !w.kind(x, y).spec_is_liquid(),
        forall|key: (int, int)| marked_keys(w, true).contains(key) ==> key == (y, x),
        forall|key: (int, int)| !marked_keys(w, false).contains(key),
    ensures
        tick_world(w, tick) == gravity_step(w, x, y),
        tick_world(w, tick).wf(),
        forall|key: (int, int)| !marked_keys(tick_world(w, tick), false).contains(key),
        w.loaded(x, y - 1) && !w.kind(x, y).spec_is_obstructed_by(w.kind(x, y - 1)) ==> (forall|
            key: (int, int),
        |
            marked_keys(tick_world(w, tick), true).contains(key) <==> key == (y - 1, x))
            && tick_world(w, tick).kind(x, y - 1) == w.kind(x, y) && tick_world(w, tick).kind(
            x,
            y,
        ) == TileType::Empty,
        !(fall_coord(w, x, y, w.kind(x, y).spec_granularity() as int, w.kind(x, y)) matches Ok(
            Some(_),
        )) ==> (forall|key: (int, int)| !marked_keys(tick_world(w, tick), true).contains(key))
            && tick_world(w, tick).kind(x, y) == w.kind(x, y),
{
    lemma_tick_keeps_wf(w, tick);
    lemma_gravity_pass_of_lone_tile(w, x, y);
    let fallen = gravity_step(w, x, y);
    let tile_type = w.kind(x, y);
    assert(tile_ok(x, y, w.tile(x, y)));
    assert forall|key: (int, int)| !marked_keys(fallen, false).contains(key) by {
        if marked_keys(fallen, false).contains(key) {
            assert(marked_keys(w, false).contains(key));
        }
    }
    lemma_flow_pass_of_none(fallen, tick);
    if !(fall_coord(w, x, y, tile_type.spec_granularity() as int, tile_type) matches Ok(Some(_))) {
        assert forall|key: (int, int)| !marked_keys(fallen, true).contains(key) by {
            if marked_keys(fallen, true).contains(key) {
                assert(marked_keys(w, true).contains(key));
            }
        }
    }
    if w.loaded(x, y - 1) && !tile_type.spec_is_obstructed_by(w.kind(x, y - 1)) {
        lemma_gravity_step_falls_one_row(w, x, y);
        assert forall|key: (int, int)| marked_keys(fallen, true).contains(key) <==> key == (
            y - 1,
            x,
        ) by {
            if marked_keys(fallen, true).contains(key) && key != (y - 1, x) {
                if key == (y, x) {
                } else {
                    assert(fallen.tile(key.1, key.0) == w.tile(key.1, key.0));
                    assert(marked_keys(w, true).contains(key));
                }
            }
        }
    }
}

/// A lone falling solid falls as many rows as there are ticks, while the
/// cells below it are free. Where the cell at `(x, y)` is the only marked
/// cell and holds a solid, and each of the `ticks.len()` cells below it is
/// loaded and not in its way, then after these ticks the tile is that many
/// rows down and still falling, the cells that it has passed through are
/// empty, no tile has been lost or made, and every other cell holds what it
/// held. The tick after the tile has met a cell that is in its way is told
/// by `lemma_tick_drops_lone_solid`: the tile stays and its marker goes.
pub proof fn lemma_lone_solid_falls(w: World, x: int, y: int, ticks: Seq<u64>)
    requires
        w.wf(),
        is_marked(w, x, y, true),
        !w.kind(x, y).spec_is_liquid(),
        forall|key: (int, int)| marked_keys(w, true).contains(key) ==> key == (y, x),
        forall|key: (int, int)| !marked_keys(w, false).contains(key),
        forall|j: int|
            1 <= j <= ticks.len() ==> w.loaded(x, y - j) && !w.kind(x, y).spec_is_obstructed_by(
                #[trigger] w.kind(x, y - j),
            ),
    ensures
        run_ticks(w, ticks).wf(),
        run_ticks(w, ticks).kind(x, y - ticks.len()) == w.kind(x, y),
        forall|j: int|
            0 <= j < ticks.len() ==> #[trigger] run_ticks(w, ticks).kind(x, y - j)
                == TileType::Empty,
        forall|key: (int, int)|
            marked_keys(run_ticks(w, ticks), true).contains(key) <==> key == (y - ticks.len(), x),
        forall|key: (int, int)| !marked_keys(run_ticks(w, ticks), false).contains(key),
        forall|ox: int, oy: int|
            w.loaded(ox, oy) && !(ox == x && y - ticks.len() <= oy <= y) ==> #[trigger] run_ticks(
                w,
                ticks,
            ).kind(ox, oy) == w.kind(ox, oy),
        forall|ox: int, oy: int| #[trigger]
            run_ticks(w, ticks).loaded(ox, oy) <==> w.loaded(ox, oy),
    decreases ticks.len(),
{
    if ticks.len() == 0 {
        assert(marked_keys(w, true).contains((y, x)));
    } else {
        let n = ticks.len() as int;
        let next = tick_world(w, ticks[0]);
        let rest = ticks.drop_first();
        assert(w.loaded(x, y - 1) && !w.kind(x, y).spec_is_obstructed_by(w.kind(x, y - 1)));
        lemma_tick_drops_lone_solid(w, x, y, ticks[0]);
        lemma_gravity_step_falls_one_row(w, x, y);
        lemma_try_set_tile_keeps_wf(w, x, y, TileType::Empty);
        lemma_try_set_tile_keeps_wf(
            w.try_set_tile(x, y, TileType::Empty),
            x,
            y - 1,
            w.kind(x, y),
        );
        lemma_fall_straight(w, x, y, w.kind(x, y).spec_granularity() as int, w.kind(x, y));
        assert(tile_ok(x, y - 1, w.tile(x, y - 1)));
        assert forall|ox: int, oy: int| #[trigger] next.loaded(ox, oy) <==> w.loaded(ox, oy) by {}
        assert(marked_keys(next, true).contains((y - 1, x)));
        assert(is_marked(next, x, y - 1, true));
        assert forall|j: int| 1 <= j <= rest.len() implies next.loaded(x, y - 1 - j)
            && !next.kind(x, y - 1).spec_is_obstructed_by(#[trigger] next.kind(x, y - 1 - j)) by {
            assert(w.loaded(x, y - (j + 1)) && !w.kind(x, y).spec_is_obstructed_by(
                w.kind(x, y - (j + 1)),
            ));
            assert(next.tile(x, y - 1 - j) == w.tile(x, y - 1 - j));
        }
        lemma_lone_solid_falls(next, x, y - 1, rest);
        let end = run_ticks(next, rest);
        assert(end == run_ticks(w, ticks));
        assert forall|j: int| 0 <= j < n implies #[trigger] end.kind(x, y - j)
            == TileType::Empty by {
            if j == 0 {
                assert(next.loaded(x, y));
                assert(end.kind(x, y) == next.kind(x, y));
            } else {
                assert(end.kind(x, y - 1 - (j - 1)) == TileType::Empty);
            }
        }
        assert forall|ox: int, oy: int|
            w.loaded(ox, oy) && !(ox == x && y - n <= oy <= y) implies #[trigger] end.kind(ox, oy)
            == w.kind(ox, oy) by {
            assert(next.loaded(ox, oy));
            assert(end.kind(ox, oy) == next.kind(ox, oy));
            assert(next.tile(ox, oy) == w.tile(ox, oy));
        }
    }
}

/// A lone flowing liquid gets one flow step per tick: where the cell at
/// `(x, y)` is the only marked cell of the world and carries a flowing
/// marker, a tick is the flow step for that cell and nothing more.
pub proof fn lemma_tick_flows_lone_liquid(w: World, x: int, y: int, tick: u64)
    requires
        is_marked(w, x, y, false),
        forall|key: (int, int)| marked_keys(w, false).contains(key) ==> key == (x, y),
        forall|key: (int, int)| !marked_keys(w, true).contains(key),
    ensures
        tick_world(w, tick) == flow_step(w, x, y, tick),
{
    lemma_gravity_pass_of_none(w);
    lemma_flow_pass_of_lone_liquid(w, x, y, tick);
}

/// A tick leaves a well-formed world well formed: in every world that
/// ticks lead to, each cell knows its position, holds no liquid of level 0,
/// and carries at most one marker, which fits its tile.
pub proof fn lemma_tick_keeps_wf(w: World, tick: u64)
    requires
        w.wf(),
    ensures
        tick_world(w, tick).wf(),
{
    lemma_gravity_keeps_wf(w, falling_order(w));
    let fallen = gravity_pass(w, falling_order(w));
    lemma_flow_keeps_wf(fallen, flowing_order(fallen, tick), tick);
}

/// The world after a run of ticks, first tick first.
pub open spec fn run_ticks(w: World, ticks: Seq<u64>) -> World
    decreases ticks.len(),
{
    if ticks.len() == 0 {
        w
    } else {
        run_ticks(tick_world(w, ticks[0]), ticks.drop_first())
    }
}

/// Two worlds with the same chunks, the same cells and the same pending
/// notifications are the same world after the same ticks. Nothing else
/// enters a tick: the side that a tile prefers is a hash of its position,
/// and a pass visits the marked cells in the one ascending order of their
/// positions, however the chunks are stored.
pub proof fn lemma_ticks_are_deterministic(a: World, b: World, ticks: Seq<u64>)
    requires
        a.chunks =~= b.chunks,
        a.tiles =~= b.tiles,
        a.updates =~= b.updates,
    ensures
        run_ticks(a, ticks) == run_ticks(b, ticks),
        forall|first: Seq<(int, int)>, second: Seq<(int, int)>, falling: bool|
            is_ascending(first, marked_keys(a, falling)) && is_ascending(
                second,
                marked_keys(b, falling),
            ) ==> first == second,
{
    assert(a == b);
    assert forall|first: Seq<(int, int)>, second: Seq<(int, int)>, falling: bool|
        is_ascending(first, marked_keys(a, falling)) && is_ascending(
            second,
            marked_keys(b, falling),
        ) implies first == second by {
        lemma_ascending_unique(first, second, marked_keys(a, falling));
    }
}

/// Tells the simulation that a tick is due, with the number of the tick.
#[derive(Clone, Copy, Debug, PartialEq, Eq, Structural)]
pub struct TickEvent(pub u64);

/// Counts the ticks. The clock that measures the interval is the
/// caller's; the counter turns each firing of that clock into one tick.
#[derive(Clone, Copy, Debug)]
pub struct TickTimer {
    ticks: u64,
}

impl TickTimer {
    /// The number of the last tick; 0 before the first.
    pub closed spec fn count(&self) -> u64 {
        self.ticks
    }

    /// A counter that has counted no tick yet.
    pub fn new() -> (timer: Self)
        ensures
            timer.count() == 0,
    {
        TickTimer { ticks: 0 }
    }

    /// The number of the last tick; 0 before the first.
    pub fn ticks(&self) -> (ticks: u64)
        ensures
            ticks == self.count(),
    {
        self.ticks
    }

    /// Takes note of whether the clock has fired since it was last asked,
    /// once or more often. A clock that has fired gives one tick, whose
    /// number is one more than that of the tick before; intervals that were
    /// missed are not made up for. A clock that has not fired gives none.
    /// The numbers end at the largest 64-bit number.
    pub fn fire(&mut self, just_finished: bool) -> (event: Option<TickEvent>)
        ensures
            event == (if just_finished && old(self).count() < u64::MAX {
                Some(TickEvent((old(self).count() + 1) as u64))
            } else {
                None
            }),
            final(self).count() == (match event {
                Some(tick) => tick.0,
                None => old(self).count(),
            }),
    {
        if just_finished && self.ticks < u64::MAX {
            self.ticks = self.ticks + 1;
            Some(TickEvent(self.ticks))
        } else {
            None
        }
    }
}

} // verus!
