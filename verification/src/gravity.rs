//! The gravity pass: where a loose tile lands, and how it gets there.

use crate::grid::{
    prefers_left, prefers_left_side, ChunkNotLoaded, ChunkStore, Coordinate, MapTile,
};
use crate::order::{
    ascending, keys_of, lemma_ascending_of_none, lemma_ascending_of_one, pass_keys,
};
use crate::tilephysics::FlowingTile;
use crate::tiles::{set_tile, FallingTile, Marker};
use crate::tiletypes::TileType;
use crate::world::{
    is_marked, key_of, lemma_mark_keeps_wf, lemma_try_set_tile_keeps_wf, marked_keys, tile_coord,
    tile_ok, World,
};
use vstd::prelude::*;

verus! {

/// What a falling tile finds at one distance on one side.
#[derive(Clone, Copy, Debug, PartialEq, Eq, Structural)]
pub enum Probe {
    /// The cell one row down is free: the tile lands there.
    Land,
    /// A cell that had to be looked at lies in a chunk that is not loaded.
    Unloaded,
    /// The cell beside the tile is in the way: the side is closed from here
    /// on.
    Blocked,
    /// The cell one row down is taken: the search goes on.
    Occupied,
}

/// What a tile of kind `tile_type` at `(x, y)` finds `offset` cells to its
/// side. With an offset other than 0 the cell in its own row is looked at
/// first, then the cell one row down.
pub open spec fn probe(w: World, x: int, y: int, offset: int, tile_type: TileType) -> Probe {
    if offset != 0 && !w.loaded(x + offset, y) {
        Probe::Unloaded
    } else if offset != 0 && tile_type.spec_is_obstructed_by(w.kind(x + offset, y)) {
        Probe::Blocked
    } else if !w.loaded(x + offset, y - 1) {
        Probe::Unloaded
    } else if !tile_type.spec_is_obstructed_by(w.kind(x + offset, y - 1)) {
        Probe::Land
    } else {
        Probe::Occupied
    }
}

/// The sides of a search that are closed.
#[derive(Clone, Copy, Debug, PartialEq, Eq, Structural)]
pub struct Sides {
    pub left_blocked: bool,
    pub right_blocked: bool,
}

impl Sides {
    /// Whether the side `side` (-1 for left, 1 for right) is closed.
    pub open spec fn blocked(self, side: int) -> bool {
        if side < 0 {
            self.left_blocked
        } else {
            self.right_blocked
        }
    }

    /// The sides with `side` closed as well.
    pub open spec fn block(self, side: int) -> Sides {
        if side < 0 {
            Sides { left_blocked: true, ..self }
        } else {
            Sides { right_blocked: true, ..self }
        }
    }

    pub open spec fn both(self) -> bool {
        self.left_blocked && self.right_blocked
    }
}

/// The cell `distance` cells away on the side `side` (-1 for left, 1 for
/// right), as an offset.
pub open spec fn offset_on(side: int, distance: int) -> int {
    if side < 0 {
        -distance
    } else {
        distance
    }
}

/// The search for a landing cell from distance `distance` on, with the
/// sides in `sides` closed so far. At each distance the side `first` is
/// tried before the other one. The search ends with the first free cell one
/// row down, with `ChunkNotLoaded` at the first cell of a chunk that is not
/// loaded, and with `None` once both sides are closed or the distance has
/// passed `granularity`.
pub open spec fn fall_scan(
    w: World,
    x: int,
    y: int,
    tile_type: TileType,
    granularity: int,
    first: int,
    distance: int,
    sides: Sides,
) -> Result<Option<Coordinate>, ChunkNotLoaded>
    decreases granularity - distance + 1,
{
    if distance > granularity {
        Ok(None)
    } else {
        let near = if sides.blocked(first) {
            Probe::Occupied
        } else {
            probe(w, x, y, offset_on(first, distance), tile_type)
        };
        let sides_near = if near == Probe::Blocked {
            sides.block(first)
        } else {
            sides
        };
        let far = if sides_near.blocked(-first) {
            Probe::Occupied
        } else {
            probe(w, x, y, offset_on(-first, distance), tile_type)
        };
        let sides_far = if far == Probe::Blocked {
            sides_near.block(-first)
        } else {
            sides_near
        };
        if near == Probe::Land {
            Ok(Some(tile_coord(x + offset_on(first, distance), y - 1)))
        } else if near == Probe::Unloaded {
            Err(ChunkNotLoaded)
        } else if sides_near.both() {
            Ok(None)
        } else if far == Probe::Land {
            Ok(Some(tile_coord(x + offset_on(-first, distance), y - 1)))
        } else if far == Probe::Unloaded {
            Err(ChunkNotLoaded)
        } else if sides_far.both() {
            Ok(None)
        } else {
            fall_scan(w, x, y, tile_type, granularity, first, distance + 1, sides_far)
        }
    }
}

/// The side that the tile at `(x, y)` tries first: -1 for left, 1 for right.
pub open spec fn first_side(x: int, y: int) -> int {
    if prefers_left(x, y) {
        -1
    } else {
        1
    }
}

/// Where a tile of kind `tile_type` at `(x, y)` lands in this tick: the
/// whole search, which starts straight down and widens to `granularity`.
pub open spec fn fall_coord(w: World, x: int, y: int, granularity: int, tile_type: TileType) -> Result<
    Option<Coordinate>,
    ChunkNotLoaded,
> {
    fall_scan(
        w,
        x,
        y,
        tile_type,
        granularity,
        first_side(x, y),
        0,
        Sides { left_blocked: false, right_blocked: false },
    )
}

/// Looks at the cells `offset` to the side of `position` for a tile of kind
/// `tile_type`.
fn probe_at(map: &ChunkStore, position: Coordinate, offset: i32, tile_type: TileType) -> (found:
    Probe)
    requires
        map.wf(),
        position is Tile,
        -255 <= offset <= 255,
    ensures
        found == probe(map@, position.x(), position.y(), offset as int, tile_type),
{
    proof {
        map.lemma_view_wf();
    }
    if offset != 0 {
        let beside = match position.checked_moved(offset, 0) {
            Some(coord) => coord,
            None => {
                return Probe::Unloaded;
            },
        };
        match map.get_tile(beside) {
            Ok(tile) => {
                if tile_type.is_obstructed_by(tile.tile_type) {
                    return Probe::Blocked;
                }
            },
            Err(_) => {
                return Probe::Unloaded;
            },
        }
    }
    let below = match position.checked_moved(offset, -1) {
        Some(coord) => coord,
        None => {
            return Probe::Unloaded;
        },
    };
    match map.get_tile(below) {
        Ok(tile) => {
            if !tile_type.is_obstructed_by(tile.tile_type) {
                Probe::Land
            } else {
                Probe::Occupied
            }
        },
        Err(_) => Probe::Unloaded,
    }
}

/// Where the falling tile `maptile` at `current_position` lands in this
/// tick, searching up to `granularity` cells to either side; `None` where it
/// stays, `ChunkNotLoaded` where the search met a chunk that is not loaded.
pub fn get_fall_coord(
    map: &ChunkStore,
    current_position: Coordinate,
    granularity: u8,
    maptile: MapTile,
) -> (landing: Result<Option<Coordinate>, ChunkNotLoaded>)
    requires
        map.wf(),
        current_position is Tile,
    ensures
        landing == fall_coord(
            map@,
            current_position.x(),
            current_position.y(),
            granularity as int,
            maptile.tile_type,
        ),
        landing matches Ok(Some(cell)) ==> cell is Tile,
{
    let position = current_position.as_tile_coord();
    let tile_type = maptile.tile_type;
    let first: i32 = if prefers_left_side(position) {
        -1
    } else {
        1
    };
    let mut left_blocked = false;
    let mut right_blocked = false;
    let mut distance: i32 = 0;
    let ghost w = map@;
    let ghost x = position.x();
    let ghost y = position.y();
    let ghost whole = fall_coord(w, x, y, granularity as int, tile_type);
    while distance <= granularity as i32
        invariant
            map.wf(),
            w == map@,
            position is Tile,
            position == current_position,
            tile_type == maptile.tile_type,
            x == position.x(),
            y == position.y(),
            first == first_side(x, y),
            whole == fall_coord(w, x, y, granularity as int, tile_type),
            0 <= distance <= granularity + 1,
            !(left_blocked && right_blocked),
            whole == fall_scan(
                w,
                x,
                y,
                tile_type,
                granularity as int,
                first as int,
                distance as int,
                Sides { left_blocked, right_blocked },
            ),
        decreases granularity - distance + 1,
    {
        let near_blocked = if first < 0 {
            left_blocked
        } else {
            right_blocked
        };
        let near: i32 = if first < 0 {
            -distance
        } else {
            distance
        };
        let far: i32 = -near;
        if !near_blocked {
            match probe_at(map, position, near, tile_type) {
                Probe::Land => {
                    proof {
                        map.lemma_view_wf();
                    }
                    return Ok(position.checked_moved(near, -1));
                },
                Probe::Unloaded => {
                    return Err(ChunkNotLoaded);
                },
                Probe::Blocked => {
                    if first < 0 {
                        left_blocked = true;
                    } else {
                        right_blocked = true;
                    }
                    if left_blocked && right_blocked {
                        return Ok(None);
                    }
                },
                Probe::Occupied => {},
            }
        }
        let far_blocked = if first < 0 {
            right_blocked
        } else {
            left_blocked
        };
        if !far_blocked {
            match probe_at(map, position, far, tile_type) {
                Probe::Land => {
                    proof {
                        map.lemma_view_wf();
                    }
                    return Ok(position.checked_moved(far, -1));
                },
                Probe::Unloaded => {
                    return Err(ChunkNotLoaded);
                },
                Probe::Blocked => {
                    if first < 0 {
                        right_blocked = true;
                    } else {
                        left_blocked = true;
                    }
                    if left_blocked && right_blocked {
                        return Ok(None);
                    }
                },
                Probe::Occupied => {},
            }
        }
        distance = distance + 1;
    }
    Ok(None)
}

/// The marker of a tile that has found no place to fall to: a liquid goes
/// on to flow, a solid comes to rest.
pub open spec fn settled_marker(tile_type: TileType, x: int) -> Marker {
    if tile_type.spec_is_liquid() {
        Marker::Flowing(FlowingTile { x: x as i32 })
    } else {
        Marker::Resting
    }
}

/// What one gravity pass does with the cell at `(x, y)`. A cell without a
/// falling marker is left alone. A falling tile that finds a landing cell
/// moves there: its own cell becomes empty, the landing cell takes the tile
/// and falls on in the next tick. One that finds none, or whose search met a
/// chunk that is not loaded, stays and loses the marker; a liquid then
/// starts to flow.
pub open spec fn gravity_step(w: World, x: int, y: int) -> World {
    if !is_marked(w, x, y, true) {
        w
    } else {
        let tile_type = w.kind(x, y);
        match fall_coord(w, x, y, tile_type.spec_granularity() as int, tile_type) {
            Ok(Some(landing)) => w.try_set_tile(x, y, TileType::Empty).try_set_tile(
                landing.x(),
                landing.y(),
                tile_type,
            ),
            _ => w.mark(x, y, settled_marker(tile_type, x)),
        }
    }
}

/// The world after the gravity steps for `keys`, first key first. A key of
/// the gravity pass holds the row of its cell, then the column.
pub open spec fn gravity_pass(w: World, keys: Seq<(int, int)>) -> World
    decreases keys.len(),
{
    if keys.len() == 0 {
        w
    } else {
        gravity_pass(gravity_step(w, keys[0].1, keys[0].0), keys.drop_first())
    }
}

/// The cells that a gravity pass visits: those with a falling marker, from
/// the lowest row up, and from left to right within a row.
pub open spec fn falling_order(w: World) -> Seq<(int, int)> {
    ascending(marked_keys(w, true))
}

/// One gravity step for the cell at `coord`.
pub fn settle_tile(store: &mut ChunkStore, coord: Coordinate)
    requires
        old(store).wf(),
        coord is Tile,
    ensures
        final(store).wf(),
        final(store)@ == gravity_step(old(store)@, coord.x(), coord.y()),
{
    proof {
        store.lemma_view_wf();
    }
    let maptile = match store.get_tile(coord) {
        Ok(tile) => tile,
        Err(_) => {
            return ;
        },
    };
    match maptile.marker {
        Marker::Falling(_) => {},
        _ => {
            return ;
        },
    }
    let granularity = match maptile.weighted() {
        Some(weighted) => weighted.granularity,
        None => 0,
    };
    match get_fall_coord(store, coord, granularity, maptile) {
        Ok(Some(landing)) => {
            set_tile(store, coord, TileType::Empty);
            set_tile(store, landing, maptile.tile_type);
        },
        _ => {
            let marker = if maptile.tile_type.is_liquid() {
                Marker::Flowing(FlowingTile { x: coord.x_i32() })
            } else {
                Marker::Resting
            };
            store.set_marker(coord, marker);
        },
    }
}

/// One gravity pass: every tile with a falling marker gets its step, the
/// lowest row first and from left to right within a row. Each step sees
/// what the steps before it have changed.
pub fn apply_gravity(store: &mut ChunkStore)
    requires
        old(store).wf(),
    ensures
        final(store).wf(),
        final(store)@ == gravity_pass(old(store)@, falling_order(old(store)@)),
{
    let keys = pass_keys(store, true);
    let ghost order = keys_of(keys@);
    let ghost start = store@;
    let mut i: usize = 0;
    assert(order.skip(0) =~= order);
    while i < keys.len()
        invariant
            store.wf(),
            i <= keys@.len(),
            order == keys_of(keys@),
            gravity_pass(start, order) == gravity_pass(store@, order.skip(i as int)),
        decreases keys@.len() - i,
    {
        let key = keys[i];
        proof {
            let rest = order.skip(i as int);
            assert(rest[0] == key_of(key));
            assert(rest.drop_first() =~= order.skip(i + 1));
        }
        settle_tile(store, Coordinate::Tile { x: key.1, y: key.0 });
        i = i + 1;
    }
    proof {
        assert(order.skip(i as int).len() == 0);
    }
}

/// The rows of a fall search are searched in vain while the cell straight
/// down is free: a tile whose cell below is loaded and not in its way lands
/// there, whatever its granularity and whichever side it prefers.
pub proof fn lemma_fall_straight(w: World, x: int, y: int, granularity: int, tile_type: TileType)
    requires
        0 <= granularity,
        w.loaded(x, y - 1),
        !tile_type.spec_is_obstructed_by(w.kind(x, y - 1)),
    ensures
        fall_coord(w, x, y, granularity, tile_type) == Ok::<Option<Coordinate>, ChunkNotLoaded>(
            Some(tile_coord(x, y - 1)),
        ),
{
}

/// A tile of granularity 0 looks at the cell straight down and nowhere
/// else: it lands there where that cell is free, stays where it is taken,
/// and its search fails where the chunk of that cell is not loaded.
pub proof fn lemma_fall_without_granularity(w: World, x: int, y: int, tile_type: TileType)
    ensures
        fall_coord(w, x, y, 0, tile_type) == (if !w.loaded(x, y - 1) {
            Err::<Option<Coordinate>, ChunkNotLoaded>(ChunkNotLoaded)
        } else if tile_type.spec_is_obstructed_by(w.kind(x, y - 1)) {
            Ok(None)
        } else {
            Ok(Some(tile_coord(x, y - 1)))
        }),
{
    let first = first_side(x, y);
    let none = Sides { left_blocked: false, right_blocked: false };
    assert(fall_scan(w, x, y, tile_type, 0, first, 1, none) == Ok::<
        Option<Coordinate>,
        ChunkNotLoaded,
    >(None));
}

/// Wherever a fall search lands, it lands one row down, no farther to the
/// side than the granularity, in a loaded cell that is not in the way of the
/// tile.
pub proof fn lemma_fall_lands_free(
    w: World,
    x: int,
    y: int,
    tile_type: TileType,
    granularity: int,
    first: int,
    distance: int,
    sides: Sides,
)
    requires
        first == 1 || first == -1,
        0 <= distance,
        granularity <= 255,
        in_bounds(x, y),
    ensures
        fall_scan(w, x, y, tile_type, granularity, first, distance, sides) matches Ok(Some(cell))
            ==> cell is Tile && cell.y() == y - 1 && x - granularity <= cell.x() <= x
            + granularity && w.loaded(cell.x(), cell.y()) && !tile_type.spec_is_obstructed_by(
            w.kind(cell.x(), cell.y()),
        ),
    decreases granularity - distance + 1,
{
    if distance <= granularity {
        let near = if sides.blocked(first) {
            Probe::Occupied
        } else {
            probe(w, x, y, offset_on(first, distance), tile_type)
        };
        let sides_near = if near == Probe::Blocked {
            sides.block(first)
        } else {
            sides
        };
        let far = if sides_near.blocked(-first) {
            Probe::Occupied
        } else {
            probe(w, x, y, offset_on(-first, distance), tile_type)
        };
        let sides_far = if far == Probe::Blocked {
            sides_near.block(-first)
        } else {
            sides_near
        };
        lemma_fall_lands_free(w, x, y, tile_type, granularity, first, distance + 1, sides_far);
    }
}

/// Whether `(x, y)` and the cells that a search from it can reach have
/// 32-bit numbers.
pub open spec fn in_bounds(x: int, y: int) -> bool {
    i32::MIN + 256 <= x <= i32::MAX - 256 && i32::MIN < y <= i32::MAX
}

/// A falling tile above a free cell falls exactly one row in a gravity
/// step: its cell becomes empty and comes to rest, the cell below takes the
/// tile with a falling marker for its new row, and every other cell keeps
/// its tile and its marker.
pub proof fn lemma_gravity_step_falls_one_row(w: World, x: int, y: int)
    requires
        w.wf(),
        is_marked(w, x, y, true),
        w.loaded(x, y - 1),
        !w.kind(x, y).spec_is_obstructed_by(w.kind(x, y - 1)),
    ensures
        gravity_step(w, x, y).kind(x, y) == TileType::Empty,
        gravity_step(w, x, y).tile(x, y).marker == Marker::Resting,
        gravity_step(w, x, y).kind(x, y - 1) == w.kind(x, y),
        gravity_step(w, x, y).tile(x, y - 1).marker == Marker::Falling(
            FallingTile { y: (y - 1) as i32 },
        ),
        forall|ox: int, oy: int|
            w.loaded(ox, oy) && (ox, oy) != (x, y) && (ox, oy) != (x, y - 1)
                ==> #[trigger] gravity_step(w, x, y).tile(ox, oy) == w.tile(ox, oy),
{
    let tile_type = w.kind(x, y);
    lemma_fall_straight(w, x, y, tile_type.spec_granularity() as int, tile_type);
    assert(tile_ok(x, y, w.tile(x, y)));
    assert(tile_ok(x, y - 1, w.tile(x, y - 1)));
    let emptied = w.try_set_tile(x, y, TileType::Empty);
    assert(emptied.loaded(x, y - 1));
    assert(tile_coord(x, y - 1).x() == x);
    assert(tile_coord(x, y - 1).y() == y - 1);
}

/// A falling tile that finds no landing cell stays where it is and loses
/// its falling marker: a solid comes to rest, a liquid starts to flow.
/// Nothing else changes and nobody is notified.
pub proof fn lemma_gravity_step_settles(w: World, x: int, y: int)
    requires
        is_marked(w, x, y, true),
        !(fall_coord(w, x, y, w.kind(x, y).spec_granularity() as int, w.kind(x, y)) matches Ok(
            Some(_),
        )),
    ensures
        gravity_step(w, x, y) == w.mark(x, y, settled_marker(w.kind(x, y), x)),
        gravity_step(w, x, y).kind(x, y) == w.kind(x, y),
        gravity_step(w, x, y).updates == w.updates,
        !w.kind(x, y).spec_is_liquid() ==> gravity_step(w, x, y).tile(x, y).marker
            == Marker::Resting,
{
}

/// A gravity step leaves a well-formed world well formed, and so does a
/// gravity pass.
pub proof fn lemma_gravity_keeps_wf(w: World, keys: Seq<(int, int)>)
    requires
        w.wf(),
    ensures
        gravity_pass(w, keys).wf(),
        keys.len() > 0 ==> gravity_step(w, keys[0].1, keys[0].0).wf(),
    decreases keys.len(),
{
    if keys.len() > 0 {
        let x = keys[0].1;
        let y = keys[0].0;
        let next = gravity_step(w, x, y);
        if is_marked(w, x, y, true) {
            let tile_type = w.kind(x, y);
            match fall_coord(w, x, y, tile_type.spec_granularity() as int, tile_type) {
                Ok(Some(landing)) => {
                    lemma_try_set_tile_keeps_wf(w, x, y, TileType::Empty);
                    lemma_try_set_tile_keeps_wf(
                        w.try_set_tile(x, y, TileType::Empty),
                        landing.x(),
                        landing.y(),
                        tile_type,
                    );
                },
                _ => {
                    assert(tile_ok(x, y, w.tile(x, y)));
                    lemma_mark_keeps_wf(w, x, y, settled_marker(tile_type, x));
                },
            }
        }
        lemma_gravity_keeps_wf(next, keys.drop_first());
    }
}

/// Where no cell carries a falling marker, a gravity pass changes
/// nothing.
pub proof fn lemma_gravity_pass_of_none(w: World)
    requires
        forall|key: (int, int)| !marked_keys(w, true).contains(key),
    ensures
        gravity_pass(w, falling_order(w)) == w,
{
    lemma_ascending_of_none(marked_keys(w, true));
}

/// Where the cell at `(x, y)` is the only one that carries a falling
/// marker, a gravity pass is the gravity step for that cell.
pub proof fn lemma_gravity_pass_of_lone_tile(w: World, x: int, y: int)
    requires
        is_marked(w, x, y, true),
        forall|key: (int, int)| marked_keys(w, true).contains(key) ==> key == (y, x),
    ensures
        gravity_pass(w, falling_order(w)) == gravity_step(w, x, y),
{
    assert(marked_keys(w, true).contains((y, x)));
    lemma_ascending_of_one((y, x), marked_keys(w, true));
    let only = seq![(y, x)];
    assert(only.drop_first().len() == 0);
    assert(gravity_pass(gravity_step(w, x, y), only.drop_first()) == gravity_step(w, x, y));
}

} // verus!
