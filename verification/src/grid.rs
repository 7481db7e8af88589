//! Positions on the grid, the store of loaded chunks, and the ways in which
//! chunks come and go.

use crate::players::Player;
use crate::table::{
    table_contents, table_get, table_insert, table_keys, table_new, table_remove, ChunkTable,
};
use crate::order::{ascending, keys_of, lemma_sorted_is_ascending};
use crate::sorting::{lemma_sorted_distinct, sort_pairs};
use crate::tileoutline::OUTLINE_ENCLOSED;
use crate::tilephysics::UpdateTileEvent;
use crate::tiles::{Marker, Tile, WeightedTile};
use crate::tiletypes::TileType;
use crate::world::{
    beyond_unrender, cell_index, cell_of_key, chunk_coord, far_chunks, fresh_tile, in_chunk,
    in_grid, is_despawn_list, key_of, marked_keys, marker_ok, missing_chunks, tile_coord, tile_ok,
    with_column, with_event, with_row, with_wavefront, World,
};
use vstd::prelude::*;
use vstd::std_specs::cmp::PartialEqSpecImpl;

verus! {

/// Side of a chunk, in tiles.
pub const CHUNK_SIZE: i32 = 32;

/// Number of tiles in a chunk.
pub const CHUNK_AREA: usize = 1024;

/// Smallest and largest chunk index whose tiles have 32-bit coordinates.
pub const MIN_CHUNK: i32 = -67108864;

pub const MAX_CHUNK: i32 = 67108863;

/// A position on the tile grid, in one of three frames: a tile, a chunk, or
/// a tile counted from the corner of its chunk.
#[derive(Clone, Copy, Debug)]
#[allow(inconsistent_fields)]
pub enum Coordinate {
    Tile { x: i32, y: i32 },
    Chunk { x: i32, y: i32 },
    ChunkLocal { x: u8, y: u8 },
}

/// The chunk that holds the tile row or column `t`.
pub open spec fn chunk_index(t: int) -> int {
    t / 32
}

/// Where the tile row or column `t` lies within its chunk, from 0 to 31.
pub open spec fn local_index(t: int) -> int {
    t % 32
}

/// The three xorshift rounds on a 32-bit seed.
pub open spec fn xorshift_rounds(seed: i32) -> i32 {
    let a = seed ^ (seed << 13u32);
    let b = a ^ (a >> 17u32);
    b ^ (b << 5u32)
}

/// A tenth of `value`, rounded toward zero.
pub open spec fn tenth(value: i32) -> int {
    if value >= 0 {
        value as int / 10
    } else {
        -((-(value as int)) / 10)
    }
}

/// The seed of a position: the wrapping product of its two numbers, or
/// their wrapping sum where the product is 0.
pub open spec fn xorshift_seed(x: i32, y: i32) -> i32 {
    let product = x.wrapping_mul(y);
    if product == 0 {
        x.wrapping_add(y)
    } else {
        product
    }
}

/// The hash of a position.
pub open spec fn xorshift(x: i32, y: i32) -> int {
    tenth(xorshift_rounds(xorshift_seed(x, y)))
}

/// The side that a tile at `(x, y)` tries first: the left one where its hash
/// is even.
pub open spec fn prefers_left(x: int, y: int) -> bool {
    xorshift(x as i32, y as i32) % 2 == 0
}

impl Coordinate {
    /// The first number of the position.
    pub open spec fn x(&self) -> int {
        match *self {
            Coordinate::Tile { x, .. } => x as int,
            Coordinate::Chunk { x, .. } => x as int,
            Coordinate::ChunkLocal { x, .. } => x as int,
        }
    }

    /// The second number of the position.
    pub open spec fn y(&self) -> int {
        match *self {
            Coordinate::Tile { y, .. } => y as int,
            Coordinate::Chunk { y, .. } => y as int,
            Coordinate::ChunkLocal { y, .. } => y as int,
        }
    }

    /// The position moved by `(dx, dy)` in its own frame.
    pub open spec fn spec_moved(&self, dx: int, dy: int) -> Coordinate {
        match *self {
            Coordinate::Tile { x, y } => Coordinate::Tile { x: (x + dx) as i32, y: (y + dy) as i32 },
            Coordinate::Chunk { x, y } => Coordinate::Chunk {
                x: (x + dx) as i32,
                y: (y + dy) as i32,
            },
            Coordinate::ChunkLocal { .. } => *self,
        }
    }

    /// Whether the position moved by `(dx, dy)` still has 32-bit numbers.
    pub open spec fn can_move(&self, dx: int, dy: int) -> bool {
        &&& !(*self is ChunkLocal)
        &&& i32::MIN <= self.x() + dx <= i32::MAX
        &&& i32::MIN <= self.y() + dy <= i32::MAX
    }

    /// The chunk of a tile; a chunk is its own chunk.
    pub open spec fn spec_chunk(&self) -> Coordinate {
        match *self {
            Coordinate::Tile { x, y } => Coordinate::Chunk {
                x: chunk_index(x as int) as i32,
                y: chunk_index(y as int) as i32,
            },
            _ => *self,
        }
    }

    /// The place of a tile within its chunk.
    pub open spec fn spec_chunklocal(&self) -> Coordinate {
        Coordinate::ChunkLocal {
            x: local_index(self.x()) as u8,
            y: local_index(self.y()) as u8,
        }
    }

    pub fn x_i32(&self) -> (x: i32)
        ensures
            x == self.x(),
    {
        match self {
            Self::ChunkLocal { x, y: _ } => *x as i32,
            Self::Tile { x, y: _ } => *x,
            Self::Chunk { x, y: _ } => *x,
        }
    }

    pub fn y_i32(&self) -> (y: i32)
        ensures
            y == self.y(),
    {
        match self {
            Self::Tile { x: _, y } => *y,
            Self::Chunk { x: _, y } => *y,
            Self::ChunkLocal { x: _, y } => *y as i32,
        }
    }

    pub fn x_isize(&self) -> (x: isize)
        ensures
            x == self.x(),
    {
        match self {
            Self::ChunkLocal { x, y: _ } => *x as isize,
            Self::Tile { x, y: _ } => *x as isize,
            Self::Chunk { x, y: _ } => *x as isize,
        }
    }

    pub fn y_isize(&self) -> (y: isize)
        ensures
            y == self.y(),
    {
        match self {
            Self::Tile { x: _, y } => *y as isize,
            Self::Chunk { x: _, y } => *y as isize,
            Self::ChunkLocal { x: _, y } => *y as isize,
        }
    }

    /// The first number of a position within a chunk.
    pub fn x_u8(&self) -> (x: u8)
        requires
            *self is ChunkLocal,
        ensures
            x == self.x(),
    {
        match self {
            Self::ChunkLocal { x, y: _ } => *x,
            _ => 0,
        }
    }

    /// The second number of a position within a chunk.
    pub fn y_u8(&self) -> (y: u8)
        requires
            *self is ChunkLocal,
        ensures
            y == self.y(),
    {
        match self {
            Self::ChunkLocal { x: _, y } => *y,
            _ => 0,
        }
    }

    /// A tile position as it is. Neither a chunk nor a position within a
    /// chunk names a tile by itself.
    pub fn as_tile_coord(&self) -> (tile: Self)
        requires
            *self is Tile,
        ensures
            tile == *self,
    {
        *self
    }

    /// The chunk that holds a tile, by floor division of both numbers by the
    /// chunk size.
    #[verifier::when_used_as_spec(spec_chunk)]
    pub fn as_chunk_coord(&self) -> (chunk: Coordinate)
        requires
            !(*self is ChunkLocal),
        ensures
            chunk == self.spec_chunk(),
            chunk is Chunk,
            *self is Tile ==> chunk.x() == chunk_index(self.x()) && chunk.y() == chunk_index(
                self.y(),
            ),
            *self is Tile ==> MIN_CHUNK <= chunk.x() <= MAX_CHUNK && MIN_CHUNK <= chunk.y()
                <= MAX_CHUNK,
    {
        match self {
            Coordinate::Tile { x, y } => Coordinate::Chunk {
                x: floor_div_chunk(*x),
                y: floor_div_chunk(*y),
            },
            _ => *self,
        }
    }

    /// Where a tile lies within its chunk: both numbers modulo the chunk
    /// size, never negative.
    #[verifier::when_used_as_spec(spec_chunklocal)]
    pub fn as_chunklocal_coord(&self) -> (local: Self)
        requires
            *self is Tile,
        ensures
            local == self.spec_chunklocal(),
            local is ChunkLocal,
            local.x() == local_index(self.x()),
            local.y() == local_index(self.y()),
            0 <= local.x() < CHUNK_SIZE,
            0 <= local.y() < CHUNK_SIZE,
    {
        let x = self.x_i32();
        let y = self.y_i32();
        Self::ChunkLocal { x: floor_mod_chunk(x), y: floor_mod_chunk(y) }
    }

    /// The position moved by `(dx, dy)` tiles or chunks.
    pub fn moved(&self, dx: i32, dy: i32) -> (coord: Coordinate)
        requires
            self.can_move(dx as int, dy as int),
        ensures
            coord == self.spec_moved(dx as int, dy as int),
            coord.x() == self.x() + dx,
            coord.y() == self.y() + dy,
            *self is Tile <==> coord is Tile,
    {
        match self {
            Coordinate::Tile { x, y } => Coordinate::Tile { x: *x + dx, y: *y + dy },
            Coordinate::Chunk { x, y } => Coordinate::Chunk { x: *x + dx, y: *y + dy },
            Coordinate::ChunkLocal { .. } => *self,
        }
    }

    /// The position moved by `(dx, dy)`, or `None` where that leaves the
    /// 32-bit grid or the position is one within a chunk.
    pub fn checked_moved(&self, dx: i32, dy: i32) -> (coord: Option<Coordinate>)
        ensures
            coord == (if self.can_move(dx as int, dy as int) {
                Some(self.spec_moved(dx as int, dy as int))
            } else {
                None
            }),
    {
        match self {
            Coordinate::ChunkLocal { .. } => None,
            _ => {
                let x = self.x_i32().checked_add(dx);
                let y = self.y_i32().checked_add(dy);
                match (x, y) {
                    (Some(_), Some(_)) => Some(self.moved(dx, dy)),
                    _ => None,
                }
            },
        }
    }
}

impl PartialEq for Coordinate {
    /// Two positions are equal when their numbers are, whatever their frames.
    fn eq(&self, other: &Self) -> (equal: bool) {
        self.x_i32() == other.x_i32() && self.y_i32() == other.y_i32()
    }
}

impl PartialEqSpecImpl for Coordinate {
    open spec fn obeys_eq_spec() -> bool {
        true
    }

    open spec fn eq_spec(&self, other: &Self) -> bool {
        self.x() == other.x() && self.y() == other.y()
    }
}

/// Floor of `t / 32`.
fn floor_div_chunk(t: i32) -> (chunk: i32)
    ensures
        chunk == chunk_index(t as int),
        MIN_CHUNK <= chunk <= MAX_CHUNK,
{
    if t >= 0 {
        t / CHUNK_SIZE
    } else {
        let below: i32 = -(t + 1);
        -(below / CHUNK_SIZE) - 1
    }
}

/// `t` modulo 32, from 0 to 31.
fn floor_mod_chunk(t: i32) -> (local: u8)
    ensures
        local == local_index(t as int),
        0 <= local < 32,
{
    if t >= 0 {
        (t % CHUNK_SIZE) as u8
    } else {
        let below: i32 = -(t + 1);
        (CHUNK_SIZE - 1 - below % CHUNK_SIZE) as u8
    }
}

/// A hash of a position: three xorshift rounds on the product of its
/// numbers (their sum where the product is 0), divided by ten. The same
/// position always gives the same hash.
pub fn xorshift_from_coord(coord: Coordinate) -> (hash: i32)
    ensures
        hash == xorshift(coord.x() as i32, coord.y() as i32),
{
    let x = coord.x_i32();
    let y = coord.y_i32();
    let mut i: i32 = x.wrapping_mul(y);
    if i == 0 {
        i = x.wrapping_add(y);
    }
    i ^= i << 13u32;
    i ^= i >> 17u32;
    i ^= i << 5u32;
    if i >= 0 {
        i / 10
    } else if i == i32::MIN {
        -214748364
    } else {
        -((-i) / 10)
    }
}

/// Whether the tile at `coord` tries its left side first.
pub fn prefers_left_side(coord: Coordinate) -> (left: bool)
    ensures
        left == prefers_left(coord.x(), coord.y()),
{
    let hash = xorshift_from_coord(coord);
    if hash >= 0 {
        hash % 2 == 0
    } else if hash == i32::MIN {
        true
    } else {
        (-hash) % 2 == 0
    }
}

/// A tile is found again from its chunk and its place in the chunk: the
/// chunk's number times the chunk size plus the place gives the tile's
/// number, on both axes and for negative numbers too.
pub proof fn lemma_chunk_roundtrip(tile: Coordinate)
    requires
        tile is Tile,
    ensures
        tile.spec_chunk().x() * CHUNK_SIZE + tile.spec_chunklocal().x() == tile.x(),
        tile.spec_chunk().y() * CHUNK_SIZE + tile.spec_chunklocal().y() == tile.y(),
        0 <= tile.spec_chunklocal().x() < CHUNK_SIZE,
        0 <= tile.spec_chunklocal().y() < CHUNK_SIZE,
{
}

/// The other way round: the tile at place `local` of chunk `chunk` lies in
/// that chunk and at that place.
pub proof fn lemma_chunk_cell(chunk: int, local: int)
    requires
        0 <= local < 32,
    ensures
        chunk_index(chunk * 32 + local) == chunk,
        local_index(chunk * 32 + local) == local,
{
}

/// The outline id of a tile whose outline has to be worked out again.
pub const OUTLINE_STALE: usize = 50;

/// The answer to a lookup or a change in a chunk that is not loaded.
#[derive(Clone, Copy, Debug, PartialEq, Eq, Structural)]
pub struct ChunkNotLoaded;

/// One cell of the world.
#[derive(Clone, Copy, Debug)]
pub struct MapTile {
    /// Handles of the renderer; the simulation carries them along unread.
    pub tile_entity: u64,
    pub outline_entity: u64,
    pub sprite_entity: u64,
    pub light_entity: u64,
    /// Written by the lighting; the simulation never reads it.
    pub light_level: u8,
    /// The outline last worked out for the tile.
    pub outline_id: usize,
    pub tile_type: TileType,
    pub tile_coord: Coordinate,
    pub marker: Marker,
}

impl MapTile {
    /// The tile as its collaborators see it.
    pub fn tile(&self) -> (tile: Tile)
        ensures
            tile.tile_type == self.tile_type,
            tile.coord == self.tile_coord,
    {
        Tile { tile_type: self.tile_type, coord: self.tile_coord }
    }

    /// What gravity needs to know of the tile, where gravity acts on it.
    pub fn weighted(&self) -> (weighted: Option<WeightedTile>)
        ensures
            weighted == (if self.tile_type.spec_is_weighted() {
                Some(WeightedTile { granularity: self.tile_type.spec_granularity() })
            } else {
                None
            }),
    {
        if self.tile_type.is_weighted() {
            Some(WeightedTile { granularity: self.tile_type.get_granularity() })
        } else {
            None
        }
    }
}

/// A loaded chunk: its handle and its 32 by 32 tiles, column by column.
pub struct MapChunk {
    pub entity: u64,
    pub tiles: Vec<MapTile>,
}

/// The loaded part of the world and the notifications that its changes have
/// raised.
pub struct ChunkStore {
    chunks: ChunkTable,
    updates: Vec<UpdateTileEvent>,
}

/// The key of the chunk that holds the tile `(x, y)`.
spec fn chunk_key(x: int, y: int) -> (i32, i32) {
    (chunk_index(x) as i32, chunk_index(y) as i32)
}

/// What holds of a chunk stored under `key`.
spec fn chunk_ok(key: (i32, i32), chunk: MapChunk) -> bool {
    &&& MIN_CHUNK <= key.0 <= MAX_CHUNK
    &&& MIN_CHUNK <= key.1 <= MAX_CHUNK
    &&& chunk.tiles@.len() == CHUNK_AREA
    &&& forall|i: int|
        0 <= i < CHUNK_AREA ==> tile_ok(key.0 * 32 + i / 32, key.1 * 32 + i % 32, #[trigger] chunk.tiles@[i])
}

impl View for ChunkStore {
    type V = World;

    closed spec fn view(&self) -> World {
        let table = table_contents(self.chunks);
        World {
            chunks: Map::new(
                |c: (int, int)|
                    in_grid(c.0, c.1) && table.contains_key((c.0 as i32, c.1 as i32)),
                |c: (int, int)| table[(c.0 as i32, c.1 as i32)].entity,
            ),
            tiles: Map::new(
                |p: (int, int)| in_grid(p.0, p.1) && table.contains_key(chunk_key(p.0, p.1)),
                |p: (int, int)| table[chunk_key(p.0, p.1)].tiles@[cell_index(p.0, p.1)],
            ),
            updates: self.updates@,
        }
    }
}

impl ChunkStore {
    /// Every stored chunk is complete and each of its cells is in order.
    pub closed spec fn wf(&self) -> bool {
        forall|key: (i32, i32)| #[trigger]
            table_contents(self.chunks).contains_key(key) ==> chunk_ok(
                key,
                table_contents(self.chunks)[key],
            )
    }

    /// The world of a well-formed store is well formed.
    pub proof fn lemma_view_wf(&self)
        requires
            self.wf(),
        ensures
            self@.wf(),
    {
        let table = table_contents(self.chunks);
        let w = self@;
        assert forall|p: (int, int)| #[trigger] w.tiles.contains_key(p) implies tile_ok(
            p.0,
            p.1,
            w.tiles[p],
        ) by {
            let key = chunk_key(p.0, p.1);
            assert(table.contains_key(key));
            assert(chunk_ok(key, table[key]));
            let i = cell_index(p.0, p.1);
            assert(0 <= i < 1024);
            assert(key.0 * 32 + i / 32 == p.0);
            assert(key.1 * 32 + i % 32 == p.1);
        }
        assert forall|p: (int, int)| #[trigger]
            w.tiles.contains_key(p) <==> w.chunks.contains_key(
                (chunk_index(p.0), chunk_index(p.1)),
            ) by {
            let c = (chunk_index(p.0), chunk_index(p.1));
            if w.chunks.contains_key(c) {
                assert(table.contains_key((c.0 as i32, c.1 as i32)));
                assert(chunk_ok((c.0 as i32, c.1 as i32), table[(c.0 as i32, c.1 as i32)]));
            }
        }
        assert forall|c: (int, int)| #[trigger] w.chunks.contains_key(c) implies MIN_CHUNK <= c.0
            <= MAX_CHUNK && MIN_CHUNK <= c.1 <= MAX_CHUNK by {
            assert(table.contains_key((c.0 as i32, c.1 as i32)));
            assert(chunk_ok((c.0 as i32, c.1 as i32), table[(c.0 as i32, c.1 as i32)]));
        }
    }

    /// A store with no chunk loaded and nothing to notify.
    pub fn new() -> (store: Self)
        ensures
            store.wf(),
            store@.chunks =~= Map::empty(),
            store@.tiles =~= Map::empty(),
            store@.updates =~= Seq::empty(),
    {
        ChunkStore { chunks: table_new(), updates: Vec::new() }
    }

    /// The cell at a tile position, or `ChunkNotLoaded` where the chunk of
    /// that position is not loaded. An empty cell of a loaded chunk is a
    /// cell like any other.
    pub fn get_tile(&self, coord: Coordinate) -> (tile: Result<MapTile, ChunkNotLoaded>)
        requires
            self.wf(),
            coord is Tile,
        ensures
            tile == (match self@.get(coord.x(), coord.y()) {
                Some(found) => Ok::<MapTile, ChunkNotLoaded>(found),
                None => Err::<MapTile, ChunkNotLoaded>(ChunkNotLoaded),
            }),
    {
        let chunk_coord = coord.as_chunk_coord();
        let local = coord.as_chunklocal_coord();
        match table_get(&self.chunks, (chunk_coord.x_i32(), chunk_coord.y_i32())) {
            Some(chunk) => {
                assert(chunk_ok(chunk_key(coord.x(), coord.y()), *chunk));
                let index: usize = local.x_u8() as usize * 32 + local.y_u8() as usize;
                Ok(chunk.tiles[index])
            },
            None => Err(ChunkNotLoaded),
        }
    }

    /// Puts `tile` into the loaded cell at `coord`. Nobody is notified.
    pub(crate) fn put_tile(&mut self, coord: Coordinate, tile: MapTile)
        requires
            old(self).wf(),
            coord is Tile,
            old(self)@.loaded(coord.x(), coord.y()),
            tile_ok(coord.x(), coord.y(), tile),
        ensures
            final(self).wf(),
            final(self)@ == old(self)@.put(coord.x(), coord.y(), tile),
    {
        let chunk_coord = coord.as_chunk_coord();
        let local = coord.as_chunklocal_coord();
        let key = (chunk_coord.x_i32(), chunk_coord.y_i32());
        let index: usize = local.x_u8() as usize * 32 + local.y_u8() as usize;
        let ghost before = table_contents(self.chunks);
        match table_remove(&mut self.chunks, key) {
            Some(chunk) => {
                assert(chunk_ok(key, chunk));
                let mut chunk = chunk;
                let ghost cells = chunk.tiles@;
                chunk.tiles.set(index, tile);
                assert(chunk_ok(key, chunk)) by {
                    assert forall|i: int| 0 <= i < CHUNK_AREA implies tile_ok(
                        key.0 * 32 + i / 32,
                        key.1 * 32 + i % 32,
                        #[trigger] chunk.tiles@[i],
                    ) by {
                        if i != index {
                            assert(chunk.tiles@[i] == cells[i]);
                        }
                    }
                }
                table_insert(&mut self.chunks, key, chunk);
                proof {
                    let after = table_contents(self.chunks);
                    assert(after =~= before.insert(key, chunk));
                    assert forall|k: (i32, i32)| #[trigger] after.contains_key(k) implies chunk_ok(
                        k,
                        after[k],
                    ) by {
                        if k != key {
                            assert(before.contains_key(k));
                        }
                    }
                    let target = old(self)@.put(coord.x(), coord.y(), tile);
                    assert(self@.tiles =~= target.tiles) by {
                        assert forall|p: (int, int)| self@.tiles.contains_key(p) implies #[trigger] self@.tiles[p] == target.tiles[p] by {
                            if chunk_key(p.0, p.1) == key {
                                if cell_index(p.0, p.1) == index {
                                    assert(p.0 == coord.x() && p.1 == coord.y());
                                }
                            } else {
                            }
                        }
                    }
                    assert(self@.chunks =~= target.chunks);
                }
            },
            None => {},
        }
    }

    /// Puts another marker on the loaded cell at `coord`.
    pub(crate) fn set_marker(&mut self, coord: Coordinate, marker: Marker)
        requires
            old(self).wf(),
            coord is Tile,
            old(self)@.loaded(coord.x(), coord.y()),
            marker_ok(coord.x(), coord.y(), old(self)@.kind(coord.x(), coord.y()), marker),
        ensures
            final(self).wf(),
            final(self)@ == old(self)@.mark(coord.x(), coord.y(), marker),
    {
        proof {
            self.lemma_view_wf();
        }
        match self.get_tile(coord) {
            Ok(tile) => {
                self.put_tile(coord, MapTile { marker, ..tile });
            },
            Err(_) => {},
        }
    }

    /// Records the outline worked out for the tile at `coord`. Nothing
    /// changes where the chunk is not loaded.
    pub fn set_outline_id(&mut self, coord: Coordinate, outline_id: usize)
        requires
            old(self).wf(),
            coord is Tile,
        ensures
            final(self).wf(),
            final(self)@ == (if old(self)@.loaded(coord.x(), coord.y()) {
                old(self)@.put(
                    coord.x(),
                    coord.y(),
                    (MapTile { outline_id, ..old(self)@.tile(coord.x(), coord.y()) }),
                )
            } else {
                old(self)@
            }),
    {
        proof {
            self.lemma_view_wf();
        }
        match self.get_tile(coord) {
            Ok(tile) => {
                self.put_tile(coord, MapTile { outline_id, ..tile });
            },
            Err(_) => {},
        }
    }

    /// Records the light that falls on the tile at `coord`. Nothing changes
    /// where the chunk is not loaded.
    pub fn set_light_level(&mut self, coord: Coordinate, light_level: u8)
        requires
            old(self).wf(),
            coord is Tile,
        ensures
            final(self).wf(),
            final(self)@ == (if old(self)@.loaded(coord.x(), coord.y()) {
                old(self)@.put(
                    coord.x(),
                    coord.y(),
                    (MapTile { light_level, ..old(self)@.tile(coord.x(), coord.y()) }),
                )
            } else {
                old(self)@
            }),
    {
        proof {
            self.lemma_view_wf();
        }
        match self.get_tile(coord) {
            Ok(tile) => {
                self.put_tile(coord, MapTile { light_level, ..tile });
            },
            Err(_) => {},
        }
    }

    /// Notifies the tile at `coord` and its eight neighbours.
    pub(crate) fn notify_around(&mut self, coord: Coordinate)
        requires
            old(self).wf(),
            coord is Tile,
        ensures
            final(self).wf(),
            final(self)@ == (World {
                updates: with_wavefront(old(self)@.updates, coord.x(), coord.y()),
                ..old(self)@
            }),
    {
        let x: i64 = coord.x_i32() as i64;
        let y: i64 = coord.y_i32() as i64;
        push_event(&mut self.updates, x - 1, y - 1);
        push_event(&mut self.updates, x - 1, y);
        push_event(&mut self.updates, x - 1, y + 1);
        push_event(&mut self.updates, x, y - 1);
        push_event(&mut self.updates, x, y);
        push_event(&mut self.updates, x, y + 1);
        push_event(&mut self.updates, x + 1, y - 1);
        push_event(&mut self.updates, x + 1, y);
        push_event(&mut self.updates, x + 1, y + 1);
        assert(self@.chunks =~= old(self)@.chunks);
        assert(self@.tiles =~= old(self)@.tiles);
    }

    /// Notifies the tile at `(x, y)`, where that is a position of the grid.
    fn notify(&mut self, x: i64, y: i64)
        requires
            old(self).wf(),
        ensures
            final(self).wf(),
            final(self)@ == (World { updates: with_event(old(self)@.updates, x as int, y as int), ..old(self)@ }),
    {
        push_event(&mut self.updates, x, y);
        assert(self@.chunks =~= old(self)@.chunks);
        assert(self@.tiles =~= old(self)@.tiles);
    }

    /// Hands out the notifications raised since they were last taken, oldest
    /// first, and leaves none behind.
    pub fn take_updates(&mut self) -> (events: Vec<UpdateTileEvent>)
        requires
            old(self).wf(),
        ensures
            final(self).wf(),
            events@ == old(self)@.updates,
            final(self)@ == (World { updates: Seq::empty(), ..old(self)@ }),
    {
        let mut events: Vec<UpdateTileEvent> = Vec::new();
        std::mem::swap(&mut events, &mut self.updates);
        assert(self@.chunks =~= old(self)@.chunks);
        assert(self@.tiles =~= old(self)@.tiles);
        assert(self@.updates =~= Seq::empty());
        events
    }
}

/// Appends a notification for `(x, y)` where that is a position of the grid.
fn push_event(events: &mut Vec<UpdateTileEvent>, x: i64, y: i64)
    ensures
        final(events)@ == with_event(old(events)@, x as int, y as int),
{
    if -2147483648 <= x && x <= 2147483647 && -2147483648 <= y && y <= 2147483647 {
        events.push(UpdateTileEvent(Coordinate::Tile { x: x as i32, y: y as i32 }));
    }
}

impl ChunkStore {
    /// The keys of the marked cells, each once, in no particular order.
    pub(crate) fn collect_marked(&self, falling: bool) -> (keys: Vec<(i32, i32)>)
        requires
            self.wf(),
        ensures
            keys@.no_duplicates(),
            forall|pair: (i32, i32)|
                keys@.contains(pair) <==> marked_keys(self@, falling).contains(key_of(pair)),
    {
        let chunk_keys = table_keys(&self.chunks);
        let mut keys: Vec<(i32, i32)> = Vec::new();
        let ghost w = self@;
        let ghost table = table_contents(self.chunks);
        let mut c: usize = 0;
        while c < chunk_keys.len()
            invariant
                self.wf(),
                w == self@,
                table == table_contents(self.chunks),
                c <= chunk_keys@.len(),
                chunk_keys@.no_duplicates(),
                forall|key: (i32, i32)| chunk_keys@.contains(key) <==> table.contains_key(key),
                keys@.no_duplicates(),
                forall|pair: (i32, i32)| #[trigger]
                    keys@.contains(pair) ==> marked_keys(w, falling).contains(key_of(pair)),
                forall|pair: (i32, i32), j: int|
                    0 <= j < chunk_keys@.len() && #[trigger] chunk_keys@[j] == chunk_key(
                        cell_of_key(key_of(pair), falling).0,
                        cell_of_key(key_of(pair), falling).1,
                    ) && marked_keys(w, falling).contains(key_of(pair)) ==> (#[trigger] keys@.contains(
                        pair,
                    ) <==> j < c),
            decreases chunk_keys@.len() - c,
        {
            let chunk_at = chunk_keys[c];
            assert(chunk_keys@.contains(chunk_at));
            match table_get(&self.chunks, chunk_at) {
                Some(chunk) => {
                    assert(chunk_ok(chunk_at, *chunk));
                    let mut i: usize = 0;
                    while i < CHUNK_AREA
                        invariant
                            self.wf(),
                            w == self@,
                            table == table_contents(self.chunks),
                            c < chunk_keys@.len(),
                            chunk_at == chunk_keys@[c as int],
                            table.contains_key(chunk_at),
                            *chunk == table[chunk_at],
                            chunk_ok(chunk_at, *chunk),
                            i <= CHUNK_AREA,
                            chunk_keys@.no_duplicates(),
                            keys@.no_duplicates(),
                            forall|pair: (i32, i32)| #[trigger]
                                keys@.contains(pair) ==> marked_keys(w, falling).contains(
                                    key_of(pair),
                                ),
                            forall|pair: (i32, i32), j: int|
                                0 <= j < chunk_keys@.len() && #[trigger] chunk_keys@[j]
                                    == chunk_key(
                                    cell_of_key(key_of(pair), falling).0,
                                    cell_of_key(key_of(pair), falling).1,
                                ) && marked_keys(w, falling).contains(key_of(pair)) ==> (
                                #[trigger] keys@.contains(pair) <==> j < c || (j == c
                                    && cell_index(
                                    cell_of_key(key_of(pair), falling).0,
                                    cell_of_key(key_of(pair), falling).1,
                                ) < i)),
                        decreases CHUNK_AREA - i,
                    {
                        let tile = chunk.tiles[i];
                        let x = tile.tile_coord.x_i32();
                        let y = tile.tile_coord.y_i32();
                        let wanted = match tile.marker {
                            Marker::Falling(_) => falling,
                            Marker::Flowing(_) => !falling,
                            Marker::Resting => false,
                        };
                        proof {
                            assert(tile_ok(chunk_at.0 * 32 + i as int / 32, chunk_at.1 * 32 + i as int % 32, tile));
                            assert(x == chunk_at.0 * 32 + i as int / 32);
                            assert(y == chunk_at.1 * 32 + i as int % 32);
                            assert(chunk_key(x as int, y as int) == chunk_at);
                            assert(cell_index(x as int, y as int) == i);
                            assert(w.loaded(x as int, y as int));
                            assert(w.tile(x as int, y as int) == tile);
                        }
                        let ghost previous = keys@;
                        let pair = if falling {
                            (y, x)
                        } else {
                            (x, y)
                        };
                        proof {
                            assert(cell_of_key(key_of(pair), falling) == (x as int, y as int));
                            assert(wanted == marked_keys(w, falling).contains(key_of(pair)));
                            assert(!previous.contains(pair));
                        }
                        if wanted {
                            keys.push(pair);
                            proof {
                                assert(keys@ == previous.push(pair));
                                assert forall|a: int, b: int|
                                    0 <= a < keys@.len() && 0 <= b < keys@.len() && a
                                        != b implies keys@[a] != keys@[b] by {
                                    if a == previous.len() {
                                        assert(previous.contains(keys@[b]));
                                    } else if b == previous.len() {
                                        assert(previous.contains(keys@[a]));
                                    }
                                }
                            }
                        }
                        proof {
                            assert forall|other: (i32, i32)|
                                keys@.contains(other) <==> (previous.contains(other) || (wanted
                                    && other == pair)) by {
                                if previous.contains(other) {
                                    let at = choose|at: int|
                                        0 <= at < previous.len() && previous[at] == other;
                                    assert(keys@[at] == other);
                                }
                                if wanted && other == pair {
                                    assert(keys@[previous.len() as int] == pair);
                                }
                                if keys@.contains(other) {
                                    let at = choose|at: int|
                                        0 <= at < keys@.len() && keys@[at] == other;
                                    if at < previous.len() {
                                        assert(previous[at] == other);
                                    }
                                }
                            }
                            assert forall|other: (i32, i32)| #[trigger]
                                keys@.contains(other) implies marked_keys(w, falling).contains(
                                key_of(other),
                            ) by {
                                if !previous.contains(other) {
                                    assert(other == pair);
                                }
                            }
                            assert forall|other: (i32, i32), j: int|
                                0 <= j < chunk_keys@.len() && #[trigger] chunk_keys@[j]
                                    == chunk_key(
                                    cell_of_key(key_of(other), falling).0,
                                    cell_of_key(key_of(other), falling).1,
                                ) && marked_keys(w, falling).contains(key_of(other)) implies (
                            #[trigger] keys@.contains(other) <==> j < c || (j == c && cell_index(
                                cell_of_key(key_of(other), falling).0,
                                cell_of_key(key_of(other), falling).1,
                            ) < i + 1)) by {
                                let cell = cell_of_key(key_of(other), falling);
                                assert(previous.contains(other) <==> j < c || (j == c
                                    && cell_index(cell.0, cell.1) < i));
                                if j == c && cell_index(cell.0, cell.1) == i {
                                    assert(cell.0 == x && cell.1 == y);
                                    assert(other == pair);
                                } else if other == pair {
                                    assert(chunk_keys@[j] == chunk_keys@[c as int]);
                                }
                            }
                        }
                        i = i + 1;
                    }
                },
                None => {},
            }
            proof {
                assert forall|pair: (i32, i32), j: int|
                    0 <= j < chunk_keys@.len() && #[trigger] chunk_keys@[j] == chunk_key(
                        cell_of_key(key_of(pair), falling).0,
                        cell_of_key(key_of(pair), falling).1,
                    ) && marked_keys(w, falling).contains(key_of(pair)) implies (
                #[trigger] keys@.contains(pair) <==> j < c + 1) by {
                    let cell = cell_of_key(key_of(pair), falling);
                    assert(0 <= cell_index(cell.0, cell.1) < 1024);
                }
            }
            c = c + 1;
        }
        proof {
            assert forall|pair: (i32, i32)|
                marked_keys(w, falling).contains(key_of(pair)) implies keys@.contains(pair) by {
                let cell = cell_of_key(key_of(pair), falling);
                let at = chunk_key(cell.0, cell.1);
                assert(table.contains_key(at));
                assert(chunk_keys@.contains(at));
                let j = choose|j: int| 0 <= j < chunk_keys@.len() && chunk_keys@[j] == at;
                assert(chunk_keys@[j] == at);
            }
        }
        keys
    }
}

/// The renderer's handles for one tile.
#[derive(Clone, Copy, Debug)]
pub struct TileEntities {
    pub tile_entity: u64,
    pub outline_entity: u64,
    pub sprite_entity: u64,
    pub light_entity: u64,
}

impl ChunkStore {
    /// Allocates the chunk at `(cx, cy)` with empty tiles and hands back the
    /// handle of the chunk that was loaded there before.
    fn install_chunk(&mut self, cx: i32, cy: i32, entity: u64, entities: &Vec<TileEntities>) -> (previous:
        Option<u64>)
        requires
            old(self).wf(),
            MIN_CHUNK <= cx <= MAX_CHUNK,
            MIN_CHUNK <= cy <= MAX_CHUNK,
            entities@.len() == CHUNK_AREA,
        ensures
            final(self).wf(),
            final(self)@ == old(self)@.with_chunk(cx as int, cy as int, entity, entities@),
            previous == old(self)@.chunk_entity(cx as int, cy as int),
    {
        let mut tiles: Vec<MapTile> = Vec::new();
        let mut index: usize = 0;
        while index < CHUNK_AREA
            invariant
                MIN_CHUNK <= cx <= MAX_CHUNK,
                MIN_CHUNK <= cy <= MAX_CHUNK,
                entities@.len() == CHUNK_AREA,
                index <= CHUNK_AREA,
                tiles@.len() == index,
                forall|i: int|
                    0 <= i < index ==> #[trigger] tiles@[i] == fresh_tile(
                        cx as int,
                        cy as int,
                        i,
                        entities@[i],
                    ),
            decreases CHUNK_AREA - index,
        {
            let handles = entities[index];
            let x: i32 = cx * CHUNK_SIZE + (index / 32) as i32;
            let y: i32 = cy * CHUNK_SIZE + (index % 32) as i32;
            tiles.push(
                MapTile {
                    tile_entity: handles.tile_entity,
                    outline_entity: handles.outline_entity,
                    sprite_entity: handles.sprite_entity,
                    light_entity: handles.light_entity,
                    light_level: 0,
                    outline_id: OUTLINE_ENCLOSED,
                    tile_type: TileType::Empty,
                    tile_coord: Coordinate::Tile { x, y },
                    marker: Marker::Resting,
                },
            );
            index = index + 1;
        }
        let chunk = MapChunk { entity, tiles };
        let ghost before = table_contents(self.chunks);
        let key = (cx, cy);
        assert(chunk_ok(key, chunk));
        let replaced = table_insert(&mut self.chunks, key, chunk);
        proof {
            let after = table_contents(self.chunks);
            assert forall|k: (i32, i32)| #[trigger] after.contains_key(k) implies chunk_ok(
                k,
                after[k],
            ) by {
                if k != key {
                    assert(before.contains_key(k));
                }
            }
            let target = old(self)@.with_chunk(cx as int, cy as int, entity, entities@);
            assert(self@.chunks =~= target.chunks);
            assert(self@.tiles =~= target.tiles) by {
                assert forall|p: (int, int)| #[trigger]
                    self@.tiles.contains_key(p) <==> target.tiles.contains_key(p) by {
                    if in_chunk(p.0, p.1, cx as int, cy as int) {
                        assert(in_grid(p.0, p.1));
                        assert(chunk_key(p.0, p.1) == key);
                    }
                }
                assert forall|p: (int, int)| self@.tiles.contains_key(p) implies #[trigger] self@.tiles[p]
                    == target.tiles[p] by {
                    if chunk_key(p.0, p.1) == key {
                        assert(0 <= cell_index(p.0, p.1) < 1024);
                    }
                }
            }
        }
        match replaced {
            Some(old_chunk) => Some(old_chunk.entity),
            None => None,
        }
    }

    /// Takes the chunk at `(cx, cy)` out of the store and hands back its
    /// handle, where it was loaded.
    fn remove_chunk(&mut self, cx: i32, cy: i32) -> (removed: Option<u64>)
        requires
            old(self).wf(),
        ensures
            final(self).wf(),
            final(self)@ == old(self)@.without_chunk(cx as int, cy as int),
            removed == old(self)@.chunk_entity(cx as int, cy as int),
    {
        let ghost before = table_contents(self.chunks);
        let key = (cx, cy);
        let removed = table_remove(&mut self.chunks, key);
        proof {
            let after = table_contents(self.chunks);
            assert forall|k: (i32, i32)| #[trigger] after.contains_key(k) implies chunk_ok(
                k,
                after[k],
            ) by {
                assert(before.contains_key(k));
            }
            let target = old(self)@.without_chunk(cx as int, cy as int);
            assert(self@.chunks =~= target.chunks);
            assert(self@.tiles =~= target.tiles) by {
                assert forall|p: (int, int)| #[trigger]
                    self@.tiles.contains_key(p) <==> target.tiles.contains_key(p) by {
                    if in_grid(p.0, p.1) && before.contains_key(chunk_key(p.0, p.1)) {
                        assert(chunk_ok(chunk_key(p.0, p.1), before[chunk_key(p.0, p.1)]));
                    }
                }
            }
        }
        match removed {
            Some(chunk) => Some(chunk.entity),
            None => None,
        }
    }

    /// Whether the chunk at `(cx, cy)` is loaded.
    pub fn is_loaded(&self, cx: i32, cy: i32) -> (loaded: bool)
        requires
            self.wf(),
        ensures
            loaded == self@.chunks.contains_key((cx as int, cy as int)),
    {
        table_get(&self.chunks, (cx, cy)).is_some()
    }

    /// The positions of the loaded chunks in ascending order: by column,
    /// and by row within a column.
    pub fn loaded_chunks(&self) -> (chunks: Vec<(i32, i32)>)
        requires
            self.wf(),
        ensures
            keys_of(chunks@) == ascending(self@.chunks.dom()),
            chunks@.no_duplicates(),
            forall|c: (i32, i32)|
                chunks@.contains(c) <==> self@.chunks.contains_key((c.0 as int, c.1 as int)),
    {
        let mut chunks = table_keys(&self.chunks);
        let ghost collected = chunks@;
        sort_pairs(&mut chunks);
        proof {
            assert forall|c: (i32, i32)|
                collected.contains(c) <==> self@.chunks.dom().contains(key_of(c)) by {}
            lemma_sorted_distinct(collected, chunks@);
            lemma_sorted_is_ascending(collected, chunks@, self@.chunks.dom());
        }
        chunks
    }

    /// Notifies `count` tiles from `(x, y)` upward.
    fn notify_column(&mut self, x: i64, y: i64, count: i64)
        requires
            old(self).wf(),
            0 <= count <= 64,
            -4294967296 <= x <= 4294967296,
            -4294967296 <= y <= 4294967296,
        ensures
            final(self).wf(),
            final(self)@ == (World {
                updates: with_column(old(self)@.updates, x as int, y as int, count as int),
                ..old(self)@
            }),
    {
        let mut done: i64 = 0;
        while done < count
            invariant
                self.wf(),
                0 <= done <= count <= 64,
                -4294967296 <= y <= 4294967296,
                self@ == (World {
                    updates: with_column(old(self)@.updates, x as int, y as int, done as int),
                    ..old(self)@
                }),
            decreases count - done,
        {
            self.notify(x, y + done);
            done = done + 1;
        }
    }

    /// Notifies `count` tiles from `(x, y)` to the right.
    fn notify_row(&mut self, x: i64, y: i64, count: i64)
        requires
            old(self).wf(),
            0 <= count <= 64,
            -4294967296 <= x <= 4294967296,
            -4294967296 <= y <= 4294967296,
        ensures
            final(self).wf(),
            final(self)@ == (World {
                updates: with_row(old(self)@.updates, x as int, y as int, count as int),
                ..old(self)@
            }),
    {
        let mut done: i64 = 0;
        while done < count
            invariant
                self.wf(),
                0 <= done <= count <= 64,
                -4294967296 <= x <= 4294967296,
                self@ == (World {
                    updates: with_row(old(self)@.updates, x as int, y as int, done as int),
                    ..old(self)@
                }),
            decreases count - done,
        {
            self.notify(x + done, y);
            done = done + 1;
        }
    }
}

/// Loads the chunk at `chunk_pos`. The chunk is allocated with empty tiles
/// that carry the handles in `entities`; each tile is then set, through
/// `set_tile`, to the tile generated for it; at last the tiles around the
/// chunk are notified, so that the seam to the chunks next to it is drawn
/// anew. Tiles are listed column by column. The result is the handle of the
/// chunk that was loaded at that position before, which this one replaces.
pub fn spawn_chunk(
    store: &mut ChunkStore,
    chunk_pos: Coordinate,
    chunk_entity: u64,
    entities: &Vec<TileEntities>,
    generated: &Vec<TileType>,
) -> (replaced: Option<u64>)
    requires
        old(store).wf(),
        chunk_pos is Chunk,
        MIN_CHUNK <= chunk_pos.x() <= MAX_CHUNK,
        MIN_CHUNK <= chunk_pos.y() <= MAX_CHUNK,
        entities@.len() == CHUNK_AREA,
        generated@.len() == CHUNK_AREA,
    ensures
        final(store).wf(),
        final(store)@ == old(store)@.spawn_chunk(
            chunk_pos.x(),
            chunk_pos.y(),
            chunk_entity,
            entities@,
            generated@,
        ),
        replaced == old(store)@.chunk_entity(chunk_pos.x(), chunk_pos.y()),
{
    let cx = chunk_pos.x_i32();
    let cy = chunk_pos.y_i32();
    let replaced = store.install_chunk(cx, cy, chunk_entity, entities);
    let ghost installed = store@;
    let mut index: usize = 0;
    while index < CHUNK_AREA
        invariant
            store.wf(),
            MIN_CHUNK <= cx <= MAX_CHUNK,
            MIN_CHUNK <= cy <= MAX_CHUNK,
            generated@.len() == CHUNK_AREA,
            index <= CHUNK_AREA,
            store@ == installed.filled(cx as int, cy as int, generated@, index as int),
        decreases CHUNK_AREA - index,
    {
        let x: i32 = cx * CHUNK_SIZE + (index / 32) as i32;
        let y: i32 = cy * CHUNK_SIZE + (index % 32) as i32;
        crate::tiles::set_tile(store, Coordinate::Tile { x, y }, generated[index]);
        index = index + 1;
    }
    let x: i64 = cx as i64 * 32;
    let y: i64 = cy as i64 * 32;
    store.notify_column(x - 1, y - 1, 34);
    store.notify_row(x, y - 1, 32);
    store.notify_row(x, y + 32, 32);
    store.notify_column(x + 32, y - 1, 34);
    replaced
}

/// Unloads the chunk at `chunk_pos` with all its tiles; nothing of it is
/// kept. The result is the handle of the chunk, where one was loaded.
pub fn despawn_chunk(store: &mut ChunkStore, chunk_pos: Coordinate) -> (removed: Option<u64>)
    requires
        old(store).wf(),
        chunk_pos is Chunk,
    ensures
        final(store).wf(),
        final(store)@ == old(store)@.without_chunk(chunk_pos.x(), chunk_pos.y()),
        removed == old(store)@.chunk_entity(chunk_pos.x(), chunk_pos.y()),
{
    store.remove_chunk(chunk_pos.x_i32(), chunk_pos.y_i32())
}

/// Chunks are loaded up to this many chunks from the player, on each axis.
pub const RENDER_DISTANCE_X: i32 = 3;

pub const RENDER_DISTANCE_Y: i32 = 2;

/// Chunks are unloaded once they are more than this many chunks from the
/// player, on either axis.
pub const UNRENDER_DISTANCE_X: i32 = 4;

pub const UNRENDER_DISTANCE_Y: i32 = 3;

/// What streaming asks for: the chunks to unload and the chunks to load.
pub struct StreamPlan {
    pub despawn: Vec<Coordinate>,
    pub spawn: Vec<Coordinate>,
}

/// A sequence with one more element holds that element and what it held.
proof fn lemma_push_contains<T>(s: Seq<T>, a: T)
    ensures
        forall|x: T| #[trigger] s.push(a).contains(x) <==> s.contains(x) || x == a,
{
    assert forall|x: T| #[trigger] s.push(a).contains(x) <==> s.contains(x) || x == a by {
        if s.contains(x) {
            let at = choose|at: int| 0 <= at < s.len() && s[at] == x;
            assert(s.push(a)[at] == x);
        }
        if x == a {
            assert(s.push(a)[s.len() as int] == a);
        }
        if s.push(a).contains(x) {
            let at = choose|at: int| 0 <= at < s.push(a).len() && s.push(a)[at] == x;
            if at < s.len() {
                assert(s[at] == x);
            }
        }
    }
}

/// What streaming asks for around a player at the chunk `player_chunk`.
/// For the local player, every loaded chunk that is more than the unrender
/// distance away is to be unloaded, and every chunk within the render
/// distance that is not loaded is to be loaded, both column by column. For
/// any other player nothing is asked. The store is left as it is: the
/// caller unloads and loads.
pub fn render_chunks(store: &ChunkStore, player: &Player, player_chunk: Coordinate) -> (plan:
    StreamPlan)
    requires
        store.wf(),
        player_chunk is Chunk,
    ensures
        *player != Player::Local ==> plan.despawn@.len() == 0 && plan.spawn@.len() == 0,
        *player == Player::Local ==> plan.despawn@ == far_chunks(
            ascending(store@.chunks.dom()),
            player_chunk.x(),
            player_chunk.y(),
        ),
        *player == Player::Local ==> is_despawn_list(
            plan.despawn@,
            store@,
            player_chunk.x(),
            player_chunk.y(),
        ),
        *player == Player::Local ==> plan.spawn@ == missing_chunks(
            store@,
            player_chunk.x(),
            player_chunk.y(),
            35,
        ),
{
    let mut despawn: Vec<Coordinate> = Vec::new();
    let mut spawn: Vec<Coordinate> = Vec::new();
    match player {
        Player::Local => {},
        _ => {
            return StreamPlan { despawn, spawn };
        },
    }
    let px: i64 = player_chunk.x_i32() as i64;
    let py: i64 = player_chunk.y_i32() as i64;
    let loaded = store.loaded_chunks();
    let ghost w = store@;
    let mut k: usize = 0;
    while k < loaded.len()
        invariant
            k <= loaded@.len(),
            loaded@.no_duplicates(),
            px == player_chunk.x(),
            py == player_chunk.y(),
            despawn@.no_duplicates(),
            despawn@ == far_chunks(keys_of(loaded@).take(k as int), px as int, py as int),
            forall|i: int| 0 <= i < despawn@.len() ==> #[trigger] despawn@[i] is Chunk,
            forall|c: Coordinate| #[trigger]
                despawn@.contains(c) ==> c is Chunk && loaded@.subrange(0, k as int).contains(
                    (c.x() as i32, c.y() as i32),
                ) && beyond_unrender(c.x(), c.y(), px as int, py as int),
            forall|j: int|
                0 <= j < k && beyond_unrender(
                    loaded@[j].0 as int,
                    loaded@[j].1 as int,
                    px as int,
                    py as int,
                ) ==> despawn@.contains(
                    #[trigger] chunk_coord(loaded@[j].0 as int, loaded@[j].1 as int),
                ),
        decreases loaded@.len() - k,
    {
        let (cx, cy) = loaded[k];
        let dx: i64 = cx as i64 - px;
        let dy: i64 = cy as i64 - py;
        let ghost before = despawn@;
        let ghost seen = loaded@.subrange(0, k as int);
        proof {
            assert(loaded@.subrange(0, k + 1) =~= seen.push(loaded@[k as int]));
            lemma_push_contains(seen, loaded@[k as int]);
            let next = keys_of(loaded@).take(k + 1);
            assert(next.drop_last() =~= keys_of(loaded@).take(k as int));
            assert(next.last() == key_of(loaded@[k as int]));
        }
        if dx > UNRENDER_DISTANCE_X as i64 || -dx > UNRENDER_DISTANCE_X as i64 || dy
            > UNRENDER_DISTANCE_Y as i64 || -dy > UNRENDER_DISTANCE_Y as i64 {
            let chunk = Coordinate::Chunk { x: cx, y: cy };
            proof {
                if before.contains(chunk) {
                    let j = choose|j: int| 0 <= j < seen.len() && seen[j] == (cx, cy);
                    assert(loaded@[j] == loaded@[k as int]);
                }
                lemma_push_contains(before, chunk);
            }
            despawn.push(chunk);
            proof {
                assert forall|a: int, b: int|
                    0 <= a < despawn@.len() && 0 <= b < despawn@.len() && a
                        != b implies despawn@[a] != despawn@[b] by {
                    if a == before.len() {
                        assert(before.contains(despawn@[b]));
                    } else if b == before.len() {
                        assert(before.contains(despawn@[a]));
                    }
                }
            }
        }
        k = k + 1;
    }
    proof {
        assert(loaded@.subrange(0, k as int) =~= loaded@);
        assert(keys_of(loaded@).take(k as int) =~= keys_of(loaded@));
        assert forall|cx: int, cy: int|
            despawn@.contains(#[trigger] chunk_coord(cx, cy)) && in_grid(cx, cy)
                <==> w.chunks.contains_key((cx, cy)) && beyond_unrender(
                cx,
                cy,
                px as int,
                py as int,
            ) by {
            if w.chunks.contains_key((cx, cy)) && beyond_unrender(cx, cy, px as int, py as int) {
                store.lemma_view_wf();
                assert(loaded@.contains((cx as i32, cy as i32)));
                let j = choose|j: int|
                    0 <= j < loaded@.len() && loaded@[j] == (cx as i32, cy as i32);
                assert(despawn@.contains(chunk_coord(loaded@[j].0 as int, loaded@[j].1 as int)));
            }
        }
    }
    let mut n: usize = 0;
    while n < 35
        invariant
            store.wf(),
            w == store@,
            n <= 35,
            px == player_chunk.x(),
            py == player_chunk.y(),
            spawn@ == missing_chunks(w, px as int, py as int, n as int),
        decreases 35 - n,
    {
        let cx: i64 = px - RENDER_DISTANCE_X as i64 + (n / 5) as i64;
        let cy: i64 = py - RENDER_DISTANCE_Y as i64 + (n % 5) as i64;
        if MIN_CHUNK as i64 <= cx && cx <= MAX_CHUNK as i64 && MIN_CHUNK as i64 <= cy && cy
            <= MAX_CHUNK as i64 {
            if !store.is_loaded(cx as i32, cy as i32) {
                spawn.push(Coordinate::Chunk { x: cx as i32, y: cy as i32 });
            }
        }
        n = n + 1;
    }
    StreamPlan { despawn, spawn }
}

/// Asks for the tile at a position to be destroyed.
#[derive(Clone, Copy, Debug)]
pub struct DestroyTileEvent(pub Coordinate);

/// Asks for a tile to be put at a position. Where the event names the cell
/// that it was made for, it only counts while that cell still holds the
/// same tile.
#[derive(Clone, Copy, Debug)]
pub struct CreateTileEvent {
    pub coord: Coordinate,
    pub new_tile_type: TileType,
    pub prev_maptile: Option<MapTile>,
}

impl CreateTileEvent {
    pub fn new(coord: Coordinate, new_tile_type: TileType, prev_maptile: Option<MapTile>) -> (event:
        Self)
        ensures
            event.coord == coord,
            event.new_tile_type == new_tile_type,
            event.prev_maptile == prev_maptile,
    {
        Self { coord, new_tile_type, prev_maptile }
    }
}

/// Carries out the requests to put tiles, in their order. A request that
/// names the cell it was made for is dropped where that cell is no longer
/// loaded or holds another tile by now.
pub fn create_tile_event(store: &mut ChunkStore, events: &Vec<CreateTileEvent>)
    requires
        old(store).wf(),
        forall|i: int| 0 <= i < events@.len() ==> (#[trigger] events@[i]).coord is Tile,
    ensures
        final(store).wf(),
        final(store)@ == old(store)@.created_all(events@),
{
    let ghost start = store@;
    let mut i: usize = 0;
    assert(events@.skip(0) =~= events@);
    while i < events.len()
        invariant
            store.wf(),
            i <= events@.len(),
            forall|i: int| 0 <= i < events@.len() ==> (#[trigger] events@[i]).coord is Tile,
            start.created_all(events@) == store@.created_all(events@.skip(i as int)),
        decreases events@.len() - i,
    {
        let event = events[i];
        proof {
            let rest = events@.skip(i as int);
            assert(rest[0] == event);
            assert(rest.drop_first() =~= events@.skip(i + 1));
        }
        let wanted = match event.prev_maptile {
            Some(before) => match store.get_tile(event.coord) {
                Ok(tile) => tile.tile_type == before.tile_type,
                Err(_) => false,
            },
            None => true,
        };
        if wanted {
            crate::tiles::set_tile(store, event.coord, event.new_tile_type);
        }
        i = i + 1;
    }
    proof {
        assert(events@.skip(i as int).len() == 0);
    }
}

/// Carries out the requests to destroy tiles, in their order: each empties
/// its cell.
pub fn destroy_tile_event(store: &mut ChunkStore, events: &Vec<DestroyTileEvent>)
    requires
        old(store).wf(),
        forall|i: int| 0 <= i < events@.len() ==> (#[trigger] events@[i]).0 is Tile,
    ensures
        final(store).wf(),
        final(store)@ == old(store)@.destroyed_all(events@),
{
    let ghost start = store@;
    let mut i: usize = 0;
    assert(events@.skip(0) =~= events@);
    while i < events.len()
        invariant
            store.wf(),
            i <= events@.len(),
            forall|i: int| 0 <= i < events@.len() ==> (#[trigger] events@[i]).0 is Tile,
            start.destroyed_all(events@) == store@.destroyed_all(events@.skip(i as int)),
        decreases events@.len() - i,
    {
        let event = events[i];
        proof {
            let rest = events@.skip(i as int);
            assert(rest[0] == event);
            assert(rest.drop_first() =~= events@.skip(i + 1));
        }
        crate::tiles::set_tile(store, event.0, TileType::Empty);
        i = i + 1;
    }
    proof {
        assert(events@.skip(i as int).len() == 0);
    }
}

} // verus!
