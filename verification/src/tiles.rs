//! The one way to change a tile, and the markers of the simulation.

use crate::grid::{ChunkNotLoaded, ChunkStore, Coordinate, MapTile, OUTLINE_STALE};
use crate::tilephysics::FlowingTile;
use crate::tiletypes::TileType;
use vstd::prelude::*;

verus! {

/// A tile as its collaborators see it: its kind and where it lies.
#[derive(Clone, Copy, Debug)]
pub struct Tile {
    pub tile_type: TileType,
    pub coord: Coordinate,
}

/// What gravity needs to know of a weighted tile.
#[derive(Clone, Copy, Debug, PartialEq, Eq, Structural)]
pub struct WeightedTile {
    pub granularity: u8,
}

/// Marks a tile that the next gravity pass looks at, with the row it is in.
#[derive(Clone, Copy, Debug, PartialEq, Eq, Structural)]
pub struct FallingTile {
    pub y: i32,
}

/// The simulation marker of a cell. A cell carries at most one.
#[derive(Clone, Copy, Debug, PartialEq, Eq, Structural)]
pub enum Marker {
    /// Neither pass looks at the tile.
    Resting,
    /// The next gravity pass looks at the tile.
    Falling(FallingTile),
    /// The next flow pass looks at the tile.
    Flowing(FlowingTile),
}

/// The marker that a cell gets with a new tile: a weighted tile in row `y`
/// starts to fall, every other tile rests.
pub open spec fn spec_marker_for(tile_type: TileType, y: int) -> Marker {
    if tile_type.spec_is_weighted() {
        Marker::Falling(FallingTile { y: y as i32 })
    } else {
        Marker::Resting
    }
}

/// The marker that a cell gets with a new tile.
pub fn marker_for(tile_type: TileType, y: i32) -> (marker: Marker)
    ensures
        marker == spec_marker_for(tile_type, y as int),
{
    if tile_type.is_weighted() {
        Marker::Falling(FallingTile { y })
    } else {
        Marker::Resting
    }
}

/// Changes the tile at a tile position, the one way in which a tile
/// changes. The cell takes the new tile (a liquid of level 0 as an empty
/// cell), loses its old marker and gets the one that goes with the new tile;
/// its outline becomes stale; the cell and its eight neighbours are
/// notified. The result is the cell as it was before. Where the chunk is
/// not loaded the result is `ChunkNotLoaded` and nothing changes.
pub fn set_tile_result(store: &mut ChunkStore, coord: Coordinate, tile_type: TileType) -> (previous:
    Result<MapTile, ChunkNotLoaded>)
    requires
        old(store).wf(),
        coord is Tile,
    ensures
        final(store).wf(),
        final(store)@ == old(store)@.try_set_tile(coord.x(), coord.y(), tile_type),
        previous == (match old(store)@.get(coord.x(), coord.y()) {
            Some(before) => Ok::<MapTile, ChunkNotLoaded>(before),
            None => Err::<MapTile, ChunkNotLoaded>(ChunkNotLoaded),
        }),
{
    let tile_coord = coord.as_tile_coord();
    let maptile = match store.get_tile(tile_coord) {
        Ok(tile) => tile,
        Err(error) => {
            return Err(error);
        },
    };
    proof {
        store.lemma_view_wf();
    }
    let stored = tile_type.normalized();
    let new_maptile = MapTile {
        tile_type: stored,
        outline_id: OUTLINE_STALE,
        marker: marker_for(stored, tile_coord.y_i32()),
        ..maptile
    };
    store.put_tile(tile_coord, new_maptile);
    store.notify_around(tile_coord);
    Ok(maptile)
}

/// `set_tile_result` for a caller that has no use for the cell as it was.
pub fn set_tile(store: &mut ChunkStore, coord: Coordinate, tile_type: TileType)
    requires
        old(store).wf(),
        coord is Tile,
    ensures
        final(store).wf(),
        final(store)@ == old(store)@.try_set_tile(coord.x(), coord.y(), tile_type),
{
    let _ = set_tile_result(store, coord, tile_type);
}

} // verus!
