//! The world as the simulation sees it: a map from tile positions to cells.
//! Every contract of the store and of the physics is stated over this model.

use crate::grid::{
    chunk_index, local_index, Coordinate, CreateTileEvent, DestroyTileEvent, MapTile,
    TileEntities, MAX_CHUNK, MIN_CHUNK, OUTLINE_STALE, RENDER_DISTANCE_X, RENDER_DISTANCE_Y,
    UNRENDER_DISTANCE_X, UNRENDER_DISTANCE_Y,
};
use crate::tileoutline::OUTLINE_ENCLOSED;
use crate::tilephysics::UpdateTileEvent;
use crate::tiles::{spec_marker_for, Marker};
use crate::tiletypes::TileType;
use vstd::prelude::*;

verus! {

/// The world as the simulation sees it.
#[verifier::ext_equal]
pub struct World {
    /// The handle of every loaded chunk, by chunk position.
    pub chunks: Map<(int, int), u64>,
    /// The cell at every tile position of a loaded chunk.
    pub tiles: Map<(int, int), MapTile>,
    /// The notifications not yet taken, oldest first.
    pub updates: Seq<UpdateTileEvent>,
}

/// Whether `(x, y)` is a tile position with 32-bit numbers.
pub open spec fn in_grid(x: int, y: int) -> bool {
    i32::MIN <= x <= i32::MAX && i32::MIN <= y <= i32::MAX
}

/// Where the tile `(x, y)` stands among the tiles of its chunk.
pub open spec fn cell_index(x: int, y: int) -> int {
    local_index(x) * 32 + local_index(y)
}

/// The tile position `(x, y)` as a coordinate.
pub open spec fn tile_coord(x: int, y: int) -> Coordinate {
    Coordinate::Tile { x: x as i32, y: y as i32 }
}

/// Whether `marker` may stand on a tile of kind `tile_type` at `(x, y)`:
/// only a weighted tile falls, only a liquid flows, and the marker names the
/// row or the column of the tile.
pub open spec fn marker_ok(x: int, y: int, tile_type: TileType, marker: Marker) -> bool {
    match marker {
        Marker::Resting => true,
        Marker::Falling(falling) => falling.y == y && tile_type.spec_is_weighted(),
        Marker::Flowing(flowing) => flowing.x == x && tile_type.spec_is_liquid(),
    }
}

/// What holds of the cell stored at `(x, y)`: it knows its position, its
/// marker fits its tile, and it holds no liquid of level 0.
pub open spec fn tile_ok(x: int, y: int, tile: MapTile) -> bool {
    &&& tile.tile_coord == tile_coord(x, y)
    &&& tile.tile_type == tile.tile_type.spec_normalized()
    &&& marker_ok(x, y, tile.tile_type, tile.marker)
}

/// `events` with a notification for `(x, y)` at its end, where that is a
/// position of the grid.
pub open spec fn with_event(events: Seq<UpdateTileEvent>, x: int, y: int) -> Seq<UpdateTileEvent> {
    if in_grid(x, y) {
        events.push(UpdateTileEvent(tile_coord(x, y)))
    } else {
        events
    }
}

/// `events` followed by a notification for each position of the three by
/// three block around `(x, y)`, column by column from the lower left.
pub open spec fn with_wavefront(events: Seq<UpdateTileEvent>, x: int, y: int) -> Seq<
    UpdateTileEvent,
> {
    let left = with_event(with_event(with_event(events, x - 1, y - 1), x - 1, y), x - 1, y + 1);
    let middle = with_event(with_event(with_event(left, x, y - 1), x, y), x, y + 1);
    with_event(with_event(with_event(middle, x + 1, y - 1), x + 1, y), x + 1, y + 1)
}

impl World {
    /// Whether the chunk of the tile `(x, y)` is loaded.
    pub open spec fn loaded(self, x: int, y: int) -> bool {
        self.tiles.contains_key((x, y))
    }

    /// The cell at `(x, y)`, or `None` where its chunk is not loaded.
    pub open spec fn get(self, x: int, y: int) -> Option<MapTile> {
        if self.loaded(x, y) {
            Some(self.tiles[(x, y)])
        } else {
            None
        }
    }

    /// The cell at `(x, y)` of a loaded chunk.
    pub open spec fn tile(self, x: int, y: int) -> MapTile {
        self.tiles[(x, y)]
    }

    /// The kind of tile at `(x, y)` of a loaded chunk.
    pub open spec fn kind(self, x: int, y: int) -> TileType {
        self.tiles[(x, y)].tile_type
    }

    /// The world is well formed when its chunks lie on the 32-bit grid, its
    /// cells are exactly the tiles of its chunks, and each cell is in order.
    pub open spec fn wf(self) -> bool {
        &&& forall|c: (int, int)| #[trigger]
            self.chunks.contains_key(c) ==> MIN_CHUNK <= c.0 <= MAX_CHUNK && MIN_CHUNK <= c.1
                <= MAX_CHUNK
        &&& forall|p: (int, int)| #[trigger]
            self.tiles.contains_key(p) <==> self.chunks.contains_key(
                (chunk_index(p.0), chunk_index(p.1)),
            )
        &&& forall|p: (int, int)| #[trigger]
            self.tiles.contains_key(p) ==> tile_ok(p.0, p.1, self.tiles[p])
    }

    /// The world with `tile` in the cell at `(x, y)`.
    pub open spec fn put(self, x: int, y: int, tile: MapTile) -> World {
        World { tiles: self.tiles.insert((x, y), tile), ..self }
    }

    /// The world with another marker on the cell at `(x, y)`.
    pub open spec fn mark(self, x: int, y: int, marker: Marker) -> World {
        self.put(x, y, MapTile { marker, ..self.tile(x, y) })
    }

    /// The cell that `set_tile` leaves at `(x, y)`: the new tile, a liquid
    /// of level 0 taken as an empty cell, with a stale outline and the marker
    /// that goes with the new tile. Handles, light and position stay.
    pub open spec fn changed_tile(self, x: int, y: int, tile_type: TileType) -> MapTile {
        MapTile {
            tile_type: tile_type.spec_normalized(),
            outline_id: OUTLINE_STALE,
            marker: spec_marker_for(tile_type.spec_normalized(), y),
            ..self.tile(x, y)
        }
    }

    /// The world after `set_tile` on the loaded cell `(x, y)`: the cell is
    /// changed, and the cell and its eight neighbours are notified.
    pub open spec fn set_tile(self, x: int, y: int, tile_type: TileType) -> World {
        World {
            tiles: self.tiles.insert((x, y), self.changed_tile(x, y, tile_type)),
            updates: with_wavefront(self.updates, x, y),
            ..self
        }
    }

    /// The world after `set_tile` on any cell: nothing changes where the
    /// chunk is not loaded.
    pub open spec fn try_set_tile(self, x: int, y: int, tile_type: TileType) -> World {
        if self.loaded(x, y) {
            self.set_tile(x, y, tile_type)
        } else {
            self
        }
    }
}

/// The cell that a key of a pass stands for. The gravity pass keys a cell
/// by row and column, the flow pass by column and row.
pub open spec fn cell_of_key(key: (int, int), falling: bool) -> (int, int) {
    if falling {
        (key.1, key.0)
    } else {
        key
    }
}

/// Whether the cell at `(x, y)` carries the marker that a pass looks for.
pub open spec fn is_marked(w: World, x: int, y: int, falling: bool) -> bool {
    w.loaded(x, y) && (if falling {
        w.tile(x, y).marker is Falling
    } else {
        w.tile(x, y).marker is Flowing
    })
}

/// The keys of the cells that carry a falling marker, or of those that
/// carry a flowing marker.
pub open spec fn marked_keys(w: World, falling: bool) -> Set<(int, int)> {
    Set::new(
        |key: (int, int)|
            is_marked(w, cell_of_key(key, falling).0, cell_of_key(key, falling).1, falling),
    )
}

/// A pair of 32-bit numbers as a key.
pub open spec fn key_of(pair: (i32, i32)) -> (int, int) {
    (pair.0 as int, pair.1 as int)
}

/// Whether the tile `(x, y)` lies in the chunk `(cx, cy)`.
pub open spec fn in_chunk(x: int, y: int, cx: int, cy: int) -> bool {
    chunk_index(x) == cx && chunk_index(y) == cy
}

/// The tile at place `index` of a chunk that has just been allocated: an
/// empty, unlit cell at rest with the handles given for it.
pub open spec fn fresh_tile(cx: int, cy: int, index: int, entities: TileEntities) -> MapTile {
    MapTile {
        tile_entity: entities.tile_entity,
        outline_entity: entities.outline_entity,
        sprite_entity: entities.sprite_entity,
        light_entity: entities.light_entity,
        light_level: 0,
        outline_id: OUTLINE_ENCLOSED,
        tile_type: TileType::Empty,
        tile_coord: tile_coord(cx * 32 + index / 32, cy * 32 + index % 32),
        marker: Marker::Resting,
    }
}

/// `events` followed by notifications for `count` positions from `(x, y)`
/// upward.
pub open spec fn with_column(events: Seq<UpdateTileEvent>, x: int, y: int, count: int) -> Seq<
    UpdateTileEvent,
>
    decreases count,
{
    if count <= 0 {
        events
    } else {
        with_event(with_column(events, x, y, count - 1), x, y + count - 1)
    }
}

/// `events` followed by notifications for `count` positions from `(x, y)`
/// to the right.
pub open spec fn with_row(events: Seq<UpdateTileEvent>, x: int, y: int, count: int) -> Seq<
    UpdateTileEvent,
>
    decreases count,
{
    if count <= 0 {
        events
    } else {
        with_event(with_row(events, x, y, count - 1), x + count - 1, y)
    }
}

/// `events` followed by notifications for the ring of tiles around the
/// chunk `(cx, cy)`, which are the tiles of the eight chunks around it that
/// border on it: the column to its left from the bottom up, the row below it
/// and the row above it from left to right, the column to its right.
pub open spec fn with_seam(events: Seq<UpdateTileEvent>, cx: int, cy: int) -> Seq<UpdateTileEvent> {
    let x = cx * 32;
    let y = cy * 32;
    let left = with_column(events, x - 1, y - 1, 34);
    let below = with_row(left, x, y - 1, 32);
    let above = with_row(below, x, y + 32, 32);
    with_column(above, x + 32, y - 1, 34)
}

impl World {
    /// The world with a newly allocated chunk at `(cx, cy)` in place of
    /// what was loaded there.
    pub open spec fn with_chunk(self, cx: int, cy: int, entity: u64, entities: Seq<TileEntities>) -> World {
        World {
            chunks: self.chunks.insert((cx, cy), entity),
            tiles: Map::new(
                |p: (int, int)| self.tiles.contains_key(p) || in_chunk(p.0, p.1, cx, cy),
                |p: (int, int)|
                    if in_chunk(p.0, p.1, cx, cy) {
                        fresh_tile(cx, cy, cell_index(p.0, p.1), entities[cell_index(p.0, p.1)])
                    } else {
                        self.tiles[p]
                    },
            ),
            updates: self.updates,
        }
    }

    /// The world with the first `count` tiles of the chunk `(cx, cy)` set
    /// to the tiles generated for them, column by column.
    pub open spec fn filled(self, cx: int, cy: int, generated: Seq<TileType>, count: int) -> World
        decreases count,
    {
        if count <= 0 {
            self
        } else {
            self.filled(cx, cy, generated, count - 1).try_set_tile(
                cx * 32 + (count - 1) / 32,
                cy * 32 + (count - 1) % 32,
                generated[count - 1],
            )
        }
    }

    /// The world after the chunk `(cx, cy)` has been spawned: the chunk is
    /// allocated, each of its tiles is set to the tile generated for it, and
    /// the tiles around the chunk are notified.
    pub open spec fn spawn_chunk(
        self,
        cx: int,
        cy: int,
        entity: u64,
        entities: Seq<TileEntities>,
        generated: Seq<TileType>,
    ) -> World {
        let filled = self.with_chunk(cx, cy, entity, entities).filled(cx, cy, generated, 1024);
        World { updates: with_seam(filled.updates, cx, cy), ..filled }
    }

    /// The world without the chunk `(cx, cy)` and its tiles.
    pub open spec fn without_chunk(self, cx: int, cy: int) -> World {
        World {
            chunks: self.chunks.remove((cx, cy)),
            tiles: Map::new(
                |p: (int, int)| self.tiles.contains_key(p) && !in_chunk(p.0, p.1, cx, cy),
                |p: (int, int)| self.tiles[p],
            ),
            updates: self.updates,
        }
    }

    /// The handle of the chunk `(cx, cy)`, where it is loaded.
    pub open spec fn chunk_entity(self, cx: int, cy: int) -> Option<u64> {
        if self.chunks.contains_key((cx, cy)) {
            Some(self.chunks[(cx, cy)])
        } else {
            None
        }
    }
}

/// The chunk `(cx, cy)` as a coordinate.
pub open spec fn chunk_coord(cx: int, cy: int) -> Coordinate {
    Coordinate::Chunk { x: cx as i32, y: cy as i32 }
}

/// Whether the chunk `(cx, cy)` is too far from the player's chunk
/// `(px, py)` to stay loaded.
pub open spec fn beyond_unrender(cx: int, cy: int, px: int, py: int) -> bool {
    cx - px > UNRENDER_DISTANCE_X || px - cx > UNRENDER_DISTANCE_X || cy - py > UNRENDER_DISTANCE_Y
        || py - cy > UNRENDER_DISTANCE_Y
}

/// Whether the chunk `(cx, cy)` is near enough to the player's chunk
/// `(px, py)` to be loaded: no more than the render distance away on either
/// axis, to either side.
pub open spec fn within_render(cx: int, cy: int, px: int, py: int) -> bool {
    px - RENDER_DISTANCE_X <= cx <= px + RENDER_DISTANCE_X && py - RENDER_DISTANCE_Y <= cy <= py
        + RENDER_DISTANCE_Y
}

/// Whether a chunk at `(cx, cy)` can exist: its tiles have 32-bit numbers.
pub open spec fn chunk_in_range(cx: int, cy: int) -> bool {
    MIN_CHUNK <= cx <= MAX_CHUNK && MIN_CHUNK <= cy <= MAX_CHUNK
}

/// The chunk number `k` of the 35 chunks near the player's chunk, seven
/// columns of five, column by column from the lower left.
pub open spec fn window_cell(px: int, py: int, k: int) -> (int, int) {
    (px - RENDER_DISTANCE_X + k / 5, py - RENDER_DISTANCE_Y + k % 5)
}

/// Those of the first `count` chunks near the player's chunk that are not
/// loaded, in their order.
pub open spec fn missing_chunks(w: World, px: int, py: int, count: int) -> Seq<Coordinate>
    decreases count,
{
    if count <= 0 {
        Seq::empty()
    } else {
        let cell = window_cell(px, py, count - 1);
        let before = missing_chunks(w, px, py, count - 1);
        if chunk_in_range(cell.0, cell.1) && !w.chunks.contains_key(cell) {
            before.push(chunk_coord(cell.0, cell.1))
        } else {
            before
        }
    }
}

/// Those of the chunks `keys` that are too far from the player's chunk to
/// stay loaded, in their order.
pub open spec fn far_chunks(keys: Seq<(int, int)>, px: int, py: int) -> Seq<Coordinate>
    decreases keys.len(),
{
    if keys.len() == 0 {
        Seq::empty()
    } else {
        let before = far_chunks(keys.drop_last(), px, py);
        if beyond_unrender(keys.last().0, keys.last().1, px, py) {
            before.push(chunk_coord(keys.last().0, keys.last().1))
        } else {
            before
        }
    }
}

/// What holds of the chunks that a plan unloads: they are the loaded chunks
/// too far from the player's chunk, each once.
pub open spec fn is_despawn_list(list: Seq<Coordinate>, w: World, px: int, py: int) -> bool {
    &&& list.no_duplicates()
    &&& forall|i: int| 0 <= i < list.len() ==> #[trigger] list[i] is Chunk
    &&& forall|cx: int, cy: int|
        list.contains(#[trigger] chunk_coord(cx, cy)) && in_grid(cx, cy) <==> w.chunks.contains_key(
            (cx, cy),
        ) && beyond_unrender(cx, cy, px, py)
}

/// The chunks that streaming asks for are the chunks near the player's
/// chunk that can exist and are not loaded, each once.
pub proof fn lemma_missing_chunks(w: World, px: int, py: int, count: int)
    requires
        0 <= count <= 35,
    ensures
        missing_chunks(w, px, py, count).no_duplicates(),
        forall|i: int|
            0 <= i < missing_chunks(w, px, py, count).len() ==> (#[trigger] missing_chunks(
                w,
                px,
                py,
                count,
            )[i]) is Chunk,
        forall|cx: int, cy: int|
            missing_chunks(w, px, py, count).contains(#[trigger] chunk_coord(cx, cy))
                && chunk_in_range(cx, cy) <==> chunk_in_range(cx, cy) && !w.chunks.contains_key(
                (cx, cy),
            ) && px - RENDER_DISTANCE_X <= cx && py - RENDER_DISTANCE_Y <= cy <= py
                + RENDER_DISTANCE_Y && (cx - (px - RENDER_DISTANCE_X)) * 5 + (cy - (py
                - RENDER_DISTANCE_Y)) < count,
        count == 35 ==> forall|cx: int, cy: int|
            missing_chunks(w, px, py, 35).contains(#[trigger] chunk_coord(cx, cy))
                && chunk_in_range(cx, cy) <==> chunk_in_range(cx, cy) && !w.chunks.contains_key(
                (cx, cy),
            ) && within_render(cx, cy, px, py),
    decreases count,
{
    if count > 0 {
        lemma_missing_chunks(w, px, py, count - 1);
        let before = missing_chunks(w, px, py, count - 1);
        let now = missing_chunks(w, px, py, count);
        let cell = window_cell(px, py, count - 1);
        let listed = chunk_in_range(cell.0, cell.1) && !w.chunks.contains_key(cell);
        let added = chunk_coord(cell.0, cell.1);
        assert((cell.0 - (px - RENDER_DISTANCE_X)) * 5 + (cell.1 - (py - RENDER_DISTANCE_Y))
            == count - 1);
        if listed {
            assert(now == before.push(added));
            assert(!before.contains(added));
            assert forall|a: int, b: int|
                0 <= a < now.len() && 0 <= b < now.len() && a != b implies now[a] != now[b] by {
                if a == before.len() {
                    assert(before.contains(now[b]));
                } else if b == before.len() {
                    assert(before.contains(now[a]));
                }
            }
            assert forall|c: Coordinate| now.contains(c) <==> before.contains(c) || c
                == added by {
                if before.contains(c) {
                    let at = choose|at: int| 0 <= at < before.len() && before[at] == c;
                    assert(now[at] == c);
                }
                if c == added {
                    assert(now[before.len() as int] == added);
                }
                if now.contains(c) {
                    let at = choose|at: int| 0 <= at < now.len() && now[at] == c;
                    if at < before.len() {
                        assert(before[at] == c);
                    }
                }
            }
        } else {
            assert(now == before);
        }
        assert forall|cx: int, cy: int|
            now.contains(#[trigger] chunk_coord(cx, cy)) && chunk_in_range(cx, cy)
                <==> chunk_in_range(cx, cy) && !w.chunks.contains_key((cx, cy)) && px
                - RENDER_DISTANCE_X <= cx && py - RENDER_DISTANCE_Y <= cy <= py + RENDER_DISTANCE_Y
                && (cx - (px - RENDER_DISTANCE_X)) * 5 + (cy - (py - RENDER_DISTANCE_Y))
                < count by {
            assert(before.contains(chunk_coord(cx, cy)) && chunk_in_range(cx, cy)
                <==> chunk_in_range(cx, cy) && !w.chunks.contains_key((cx, cy)) && px
                - RENDER_DISTANCE_X <= cx && py - RENDER_DISTANCE_Y <= cy <= py + RENDER_DISTANCE_Y
                && (cx - (px - RENDER_DISTANCE_X)) * 5 + (cy - (py - RENDER_DISTANCE_Y)) < count
                - 1);
            if chunk_in_range(cx, cy) && chunk_coord(cx, cy) == added && listed {
                assert(cx == cell.0 && cy == cell.1);
            }
        }
    }
}

/// A chunk that streaming loads is never one that it unloads: between the
/// two distances lies a band in which a chunk is kept but not asked for.
pub proof fn lemma_render_within_unrender(cx: int, cy: int, px: int, py: int)
    requires
        within_render(cx, cy, px, py),
    ensures
        !beyond_unrender(cx, cy, px, py),
{
}

impl World {
    /// The world after one request to put a tile.
    pub open spec fn created(self, event: CreateTileEvent) -> World {
        let x = event.coord.x();
        let y = event.coord.y();
        match event.prev_maptile {
            Some(before) => if self.loaded(x, y) && self.kind(x, y) == before.tile_type {
                self.set_tile(x, y, event.new_tile_type)
            } else {
                self
            },
            None => self.try_set_tile(x, y, event.new_tile_type),
        }
    }

    /// The world after a run of requests to put tiles, first one first.
    pub open spec fn created_all(self, events: Seq<CreateTileEvent>) -> World
        decreases events.len(),
    {
        if events.len() == 0 {
            self
        } else {
            self.created(events[0]).created_all(events.drop_first())
        }
    }

    /// The world after a run of requests to destroy tiles, first one first.
    pub open spec fn destroyed_all(self, events: Seq<DestroyTileEvent>) -> World
        decreases events.len(),
    {
        if events.len() == 0 {
            self
        } else {
            self.try_set_tile(events[0].0.x(), events[0].0.y(), TileType::Empty).destroyed_all(
                events.drop_first(),
            )
        }
    }
}

/// `set_tile` changes one cell and nothing else: the cell holds the new
/// tile with the marker that goes with it, every other cell and every chunk
/// stays as it was, and the world stays well formed.
pub proof fn lemma_set_tile_changes_one_cell(w: World, x: int, y: int, tile_type: TileType)
    requires
        w.wf(),
        w.loaded(x, y),
    ensures
        w.set_tile(x, y, tile_type).wf(),
        w.set_tile(x, y, tile_type).chunks == w.chunks,
        w.set_tile(x, y, tile_type).kind(x, y) == tile_type.spec_normalized(),
        w.set_tile(x, y, tile_type).tile(x, y).marker == spec_marker_for(
            tile_type.spec_normalized(),
            y,
        ),
        w.set_tile(x, y, tile_type).tile(x, y).outline_id == OUTLINE_STALE,
        forall|ox: int, oy: int| #[trigger]
            w.set_tile(x, y, tile_type).loaded(ox, oy) <==> w.loaded(ox, oy),
        forall|ox: int, oy: int|
            (ox, oy) != (x, y) && w.loaded(ox, oy) ==> #[trigger] w.set_tile(x, y, tile_type).tile(
                ox,
                oy,
            ) == w.tile(ox, oy),
{
    let after = w.set_tile(x, y, tile_type);
    assert(tile_ok(x, y, w.tile(x, y)));
    assert forall|p: (int, int)| #[trigger] after.tiles.contains_key(p) implies tile_ok(
        p.0,
        p.1,
        after.tiles[p],
    ) by {
        if p != (x, y) {
            assert(w.tiles.contains_key(p));
        }
    }
    assert forall|p: (int, int)| #[trigger]
        after.tiles.contains_key(p) <==> after.chunks.contains_key(
            (chunk_index(p.0), chunk_index(p.1)),
        ) by {
        assert(w.tiles.contains_key(p) <==> w.chunks.contains_key(
            (chunk_index(p.0), chunk_index(p.1)),
        ));
    }
}

/// A change of a tile leaves a well-formed world well formed, whether the
/// chunk of the tile is loaded or not.
pub proof fn lemma_try_set_tile_keeps_wf(w: World, x: int, y: int, tile_type: TileType)
    requires
        w.wf(),
    ensures
        w.try_set_tile(x, y, tile_type).wf(),
        forall|ox: int, oy: int| #[trigger]
            w.try_set_tile(x, y, tile_type).loaded(ox, oy) <==> w.loaded(ox, oy),
{
    if w.loaded(x, y) {
        lemma_set_tile_changes_one_cell(w, x, y, tile_type);
    }
}

/// A marker that fits the tile it is put on leaves a well-formed world well
/// formed.
pub proof fn lemma_mark_keeps_wf(w: World, x: int, y: int, marker: Marker)
    requires
        w.wf(),
        w.loaded(x, y),
        marker_ok(x, y, w.kind(x, y), marker),
    ensures
        w.mark(x, y, marker).wf(),
        forall|ox: int, oy: int| #[trigger] w.mark(x, y, marker).loaded(ox, oy) <==> w.loaded(
            ox,
            oy,
        ),
{
    let after = w.mark(x, y, marker);
    assert(tile_ok(x, y, w.tile(x, y)));
    assert forall|p: (int, int)| #[trigger] after.tiles.contains_key(p) implies tile_ok(
        p.0,
        p.1,
        after.tiles[p],
    ) by {
        if p != (x, y) {
            assert(w.tiles.contains_key(p));
        }
    }
    assert forall|p: (int, int)| #[trigger]
        after.tiles.contains_key(p) <==> after.chunks.contains_key(
            (chunk_index(p.0), chunk_index(p.1)),
        ) by {
        assert(w.tiles.contains_key(p) <==> w.chunks.contains_key(
            (chunk_index(p.0), chunk_index(p.1)),
        ));
    }
}

/// Whether `events` holds, from place `from` on, a notification for `coord`.
pub open spec fn notified(events: Seq<UpdateTileEvent>, from: int, coord: Coordinate) -> bool {
    exists|i: int| from <= i < events.len() && events[i].0 == coord
}

/// Whether `coord` is a tile of the three by three block around `(x, y)`.
pub open spec fn in_block(coord: Coordinate, x: int, y: int) -> bool {
    coord is Tile && x - 1 <= coord.x() <= x + 1 && y - 1 <= coord.y() <= y + 1
}

/// `set_tile` notifies the changed cell and each of the eight cells around
/// it that lies on the grid, after the notifications that were pending, and
/// nobody else.
pub proof fn lemma_wavefront_covers_neighbors(events: Seq<UpdateTileEvent>, x: int, y: int)
    ensures
        events.len() <= with_wavefront(events, x, y).len() <= events.len() + 9,
        forall|i: int| 0 <= i < events.len() ==> with_wavefront(events, x, y)[i] == events[i],
        forall|nx: int, ny: int|
            x - 1 <= nx <= x + 1 && y - 1 <= ny <= y + 1 && in_grid(nx, ny) ==> notified(
                with_wavefront(events, x, y),
                events.len() as int,
                #[trigger] tile_coord(nx, ny),
            ),
        forall|i: int|
            events.len() <= i < with_wavefront(events, x, y).len() ==> in_block(
                (#[trigger] with_wavefront(events, x, y)[i]).0,
                x,
                y,
            ),
        in_grid(x - 1, y - 1) && in_grid(x + 1, y + 1) ==> with_wavefront(events, x, y)
            == events + seq![
            UpdateTileEvent(tile_coord(x - 1, y - 1)),
            UpdateTileEvent(tile_coord(x - 1, y)),
            UpdateTileEvent(tile_coord(x - 1, y + 1)),
            UpdateTileEvent(tile_coord(x, y - 1)),
            UpdateTileEvent(tile_coord(x, y)),
            UpdateTileEvent(tile_coord(x, y + 1)),
            UpdateTileEvent(tile_coord(x + 1, y - 1)),
            UpdateTileEvent(tile_coord(x + 1, y)),
            UpdateTileEvent(tile_coord(x + 1, y + 1)),
        ],
{
    let e1 = with_event(events, x - 1, y - 1);
    let e2 = with_event(e1, x - 1, y);
    let e3 = with_event(e2, x - 1, y + 1);
    let e4 = with_event(e3, x, y - 1);
    let e5 = with_event(e4, x, y);
    let e6 = with_event(e5, x, y + 1);
    let e7 = with_event(e6, x + 1, y - 1);
    let e8 = with_event(e7, x + 1, y);
    let e9 = with_event(e8, x + 1, y + 1);
    assert(e9 == with_wavefront(events, x, y));
    assert forall|nx: int, ny: int|
        x - 1 <= nx <= x + 1 && y - 1 <= ny <= y + 1 && in_grid(nx, ny) implies notified(
        e9,
        events.len() as int,
        #[trigger] tile_coord(nx, ny),
    ) by {
        let at = if nx == x - 1 && ny == y - 1 {
            e1.len() - 1
        } else if nx == x - 1 && ny == y {
            e2.len() - 1
        } else if nx == x - 1 && ny == y + 1 {
            e3.len() - 1
        } else if nx == x && ny == y - 1 {
            e4.len() - 1
        } else if nx == x && ny == y {
            e5.len() - 1
        } else if nx == x && ny == y + 1 {
            e6.len() - 1
        } else if nx == x + 1 && ny == y - 1 {
            e7.len() - 1
        } else if nx == x + 1 && ny == y {
            e8.len() - 1
        } else {
            e9.len() - 1
        };
        assert(e9[at].0 == tile_coord(nx, ny));
    }
    if in_grid(x - 1, y - 1) && in_grid(x + 1, y + 1) {
        assert(e9 =~= events + seq![
            UpdateTileEvent(tile_coord(x - 1, y - 1)),
            UpdateTileEvent(tile_coord(x - 1, y)),
            UpdateTileEvent(tile_coord(x - 1, y + 1)),
            UpdateTileEvent(tile_coord(x, y - 1)),
            UpdateTileEvent(tile_coord(x, y)),
            UpdateTileEvent(tile_coord(x, y + 1)),
            UpdateTileEvent(tile_coord(x + 1, y - 1)),
            UpdateTileEvent(tile_coord(x + 1, y)),
            UpdateTileEvent(tile_coord(x + 1, y + 1)),
        ]);
    }
}

/// The cell that a spawned chunk holds at a position: the tile generated
/// for it, a liquid of level 0 taken as an empty cell, with the handles
/// given for it, unlit, with a stale outline and the marker that goes with
/// the tile.
pub open spec fn spawned_tile(
    cx: int,
    cy: int,
    index: int,
    entities: TileEntities,
    generated: TileType,
) -> MapTile {
    MapTile {
        tile_type: generated.spec_normalized(),
        outline_id: OUTLINE_STALE,
        marker: spec_marker_for(generated.spec_normalized(), cy * 32 + index % 32),
        ..fresh_tile(cx, cy, index, entities)
    }
}

/// Filling a chunk sets its first `count` cells and leaves every other
/// cell, and every chunk, as it was.
proof fn lemma_filled(w: World, cx: int, cy: int, generated: Seq<TileType>, count: int)
    requires
        0 <= count <= 1024,
        generated.len() == 1024,
    ensures
        w.filled(cx, cy, generated, count).chunks == w.chunks,
        forall|x: int, y: int| #[trigger]
            w.filled(cx, cy, generated, count).loaded(x, y) <==> w.loaded(x, y),
        forall|x: int, y: int|
            w.loaded(x, y) ==> #[trigger] w.filled(cx, cy, generated, count).tile(x, y) == (
            if in_chunk(x, y, cx, cy) && cell_index(x, y) < count {
                w.changed_tile(x, y, generated[cell_index(x, y)])
            } else {
                w.tile(x, y)
            }),
    decreases count,
{
    if count > 0 {
        lemma_filled(w, cx, cy, generated, count - 1);
        let before = w.filled(cx, cy, generated, count - 1);
        let tx = cx * 32 + (count - 1) / 32;
        let ty = cy * 32 + (count - 1) % 32;
        let after = before.try_set_tile(tx, ty, generated[count - 1]);
        assert(after == w.filled(cx, cy, generated, count));
        assert(in_chunk(tx, ty, cx, cy));
        assert(cell_index(tx, ty) == count - 1);
        assert(before.loaded(tx, ty) <==> w.loaded(tx, ty));
        assert forall|x: int, y: int| #[trigger] after.loaded(x, y) <==> w.loaded(x, y) by {
            assert(before.loaded(x, y) <==> w.loaded(x, y));
        }
        assert(after.chunks == w.chunks);
        assert forall|x: int, y: int| w.loaded(x, y) implies #[trigger] after.tile(x, y) == (
        if in_chunk(x, y, cx, cy) && cell_index(x, y) < count {
            w.changed_tile(x, y, generated[cell_index(x, y)])
        } else {
            w.tile(x, y)
        }) by {
            assert(before.loaded(x, y));
            if in_chunk(x, y, cx, cy) && cell_index(x, y) == count - 1 {
                assert(x == tx && y == ty);
                assert(before.tile(x, y) == w.tile(x, y));
            } else {
                assert((x, y) != (tx, ty));
                assert(after.tile(x, y) == before.tile(x, y));
            }
        }
    }
}

/// What a spawned chunk holds. The chunk is loaded under its handle; each
/// of its cells holds the tile generated for it, with the handles given for
/// it; every cell of another chunk stays as it was, and so does every other
/// chunk.
pub proof fn lemma_spawned_chunk(
    w: World,
    cx: int,
    cy: int,
    entity: u64,
    entities: Seq<TileEntities>,
    generated: Seq<TileType>,
)
    requires
        generated.len() == 1024,
        entities.len() == 1024,
    ensures
        w.spawn_chunk(cx, cy, entity, entities, generated).chunks == w.chunks.insert(
            (cx, cy),
            entity,
        ),
        forall|x: int, y: int|
            in_chunk(x, y, cx, cy) ==> w.spawn_chunk(cx, cy, entity, entities, generated).loaded(
                x,
                y,
            ) && #[trigger] w.spawn_chunk(cx, cy, entity, entities, generated).tile(x, y)
                == spawned_tile(
                cx,
                cy,
                cell_index(x, y),
                entities[cell_index(x, y)],
                generated[cell_index(x, y)],
            ),
        forall|x: int, y: int|
            !in_chunk(x, y, cx, cy) ==> (#[trigger] w.spawn_chunk(
                cx,
                cy,
                entity,
                entities,
                generated,
            ).loaded(x, y) <==> w.loaded(x, y)),
        forall|x: int, y: int|
            !in_chunk(x, y, cx, cy) && w.loaded(x, y) ==> #[trigger] w.spawn_chunk(
                cx,
                cy,
                entity,
                entities,
                generated,
            ).tile(x, y) == w.tile(x, y),
{
    let installed = w.with_chunk(cx, cy, entity, entities);
    lemma_filled(installed, cx, cy, generated, 1024);
    let filled = installed.filled(cx, cy, generated, 1024);
    let spawned = w.spawn_chunk(cx, cy, entity, entities, generated);
    assert(spawned.tiles == filled.tiles);
    assert forall|x: int, y: int| in_chunk(x, y, cx, cy) implies spawned.loaded(x, y)
        && #[trigger] spawned.tile(x, y) == spawned_tile(
        cx,
        cy,
        cell_index(x, y),
        entities[cell_index(x, y)],
        generated[cell_index(x, y)],
    ) by {
        assert(installed.loaded(x, y));
        assert(filled.loaded(x, y));
        assert(0 <= cell_index(x, y) < 1024);
        assert(filled.tile(x, y) == installed.changed_tile(x, y, generated[cell_index(x, y)]));
        assert(cy * 32 + cell_index(x, y) % 32 == y);
    }
    assert forall|x: int, y: int| !in_chunk(x, y, cx, cy) implies (#[trigger] spawned.loaded(x, y)
        <==> w.loaded(x, y)) by {
        assert(filled.loaded(x, y) <==> installed.loaded(x, y));
    }
    assert forall|x: int, y: int|
        !in_chunk(x, y, cx, cy) && w.loaded(x, y) implies #[trigger] spawned.tile(x, y) == w.tile(
        x,
        y,
    ) by {
        assert(installed.loaded(x, y));
        assert(filled.tile(x, y) == installed.tile(x, y));
    }
}

} // verus!
