use tilegame::grid::{
    spawn_chunk, ChunkNotLoaded, ChunkStore, Coordinate, MapTile, TileEntities, CHUNK_AREA,
};
use tilegame::flow::{flow_liquid_tile, flow_tile};
use tilegame::gravity::{apply_gravity, get_fall_coord, settle_tile};
use tilegame::tilephysics::{
    tick, update_outline_sprite, update_outline_sprite_event, update_tile, FlowingTile, TickEvent,
    TickTimer, UpdateOutlineSpriteEvent, UpdateTileEvent, INITIAL_LIQUID_MOMENTUM,
};
use tilegame::tiles::{set_tile, FallingTile, Marker};
use tilegame::tiletypes::{Liquid, TileType};

fn at(x: i32, y: i32) -> Coordinate {
    Coordinate::Tile { x, y }
}

fn water(level: u8) -> TileType {
    TileType::Water(Liquid { level, ..Liquid::default() })
}

fn magma(level: u8) -> TileType {
    TileType::Magma(Liquid { level, ..Liquid::default() })
}

fn oil(level: u8) -> TileType {
    TileType::Oil(Liquid { level, ..Liquid::default() })
}

fn empty_world(chunks: &[(i32, i32)]) -> ChunkStore {
    let mut store = ChunkStore::new();
    let entities = vec![
        TileEntities { tile_entity: 0, outline_entity: 0, sprite_entity: 0, light_entity: 0 };
        CHUNK_AREA
    ];
    let generated = vec![TileType::Empty; CHUNK_AREA];
    for &(cx, cy) in chunks {
        spawn_chunk(&mut store, Coordinate::Chunk { x: cx, y: cy }, 1, &entities, &generated);
    }
    store.take_updates();
    store
}

/// Four chunks around the origin with a floor of dirt in row -1.
fn world_with_floor() -> ChunkStore {
    let mut store = empty_world(&[(0, 0), (-1, 0), (0, -1), (-1, -1)]);
    for x in -32..32 {
        set_tile(&mut store, at(x, -1), TileType::Dirt);
    }
    store.take_updates();
    store
}

/// A floor with a pit from column `left` to column `right`, walled with
/// dirt up to row 3.
fn world_with_pit(left: i32, right: i32) -> ChunkStore {
    let mut store = world_with_floor();
    for y in 0..4 {
        set_tile(&mut store, at(left - 1, y), TileType::Dirt);
        set_tile(&mut store, at(right + 1, y), TileType::Dirt);
    }
    store.take_updates();
    store
}

fn kind(store: &ChunkStore, x: i32, y: i32) -> TileType {
    store.get_tile(at(x, y)).unwrap().tile_type
}

fn marker(store: &ChunkStore, x: i32, y: i32) -> Marker {
    store.get_tile(at(x, y)).unwrap().marker
}

fn level(store: &ChunkStore, x: i32, y: i32) -> u8 {
    match kind(store, x, y).get_liquid() {
        Ok(l) => l.level,
        Err(_) => 0,
    }
}

fn handle_updates(store: &mut ChunkStore) {
    for event in store.take_updates() {
        update_tile(store, event);
    }
}

fn snapshot(store: &ChunkStore) -> Vec<(TileType, Marker, usize)> {
    let mut cells = Vec::new();
    for x in -32..32 {
        for y in -32..32 {
            let t = store.get_tile(at(x, y)).unwrap();
            cells.push((t.tile_type, t.marker, t.outline_id));
        }
    }
    cells
}

fn sand_tile(store: &ChunkStore, x: i32, y: i32) -> MapTile {
    store.get_tile(at(x, y)).unwrap()
}

#[test]
fn sand_falls_one_row_per_tick_until_it_lands() {
    let mut store = world_with_floor();
    set_tile(&mut store, at(0, 5), TileType::Sand);
    for t in 1..=5 {
        tick(&mut store, t);
        assert_eq!(kind(&store, 0, 5 - t as i32), TileType::Sand);
        assert_eq!(marker(&store, 0, 5 - t as i32), Marker::Falling(FallingTile { y: 5 - t as i32 }));
        assert_eq!(kind(&store, 0, 6 - t as i32), TileType::Empty);
        assert_eq!(marker(&store, 0, 6 - t as i32), Marker::Resting);
    }
    assert_eq!(kind(&store, 0, 0), TileType::Sand);
    assert_eq!(kind(&store, 0, 5), TileType::Empty);
    assert_eq!(kind(&store, 0, -1), TileType::Dirt);
    tick(&mut store, 6);
    assert_eq!(kind(&store, 0, 0), TileType::Sand);
    assert_eq!(marker(&store, 0, 0), Marker::Resting);
    tick(&mut store, 7);
    assert_eq!(kind(&store, 0, 0), TileType::Sand);
    assert_eq!(marker(&store, 0, 0), Marker::Resting);
}

#[test]
fn tile_without_granularity_only_falls_straight() {
    let mut store = world_with_floor();
    set_tile(&mut store, at(0, 0), TileType::Dirt);
    let tile = sand_tile(&store, 0, 0);
    set_tile(&mut store, at(0, 2), TileType::Sand);
    let sand = sand_tile(&store, 0, 2);
    assert_eq!(get_fall_coord(&store, at(0, 2), 0, sand), Ok(Some(at(0, 1))));
    assert!(matches!(get_fall_coord(&store, at(0, 2), 0, sand), Ok(Some(Coordinate::Tile { x: 0, y: 1 }))));
    set_tile(&mut store, at(0, 1), TileType::Sand);
    let sand = sand_tile(&store, 0, 1);
    assert_eq!(get_fall_coord(&store, at(0, 1), 0, sand), Ok(None));
    assert_eq!(tile.tile_type, TileType::Dirt);
}

#[test]
fn sand_slides_off_a_peak_to_its_preferred_side() {
    let mut store = world_with_floor();
    set_tile(&mut store, at(0, 0), TileType::Dirt);
    set_tile(&mut store, at(0, 1), TileType::Sand);
    let sand = sand_tile(&store, 0, 1);
    assert_eq!(get_fall_coord(&store, at(0, 1), 2, sand), Ok(Some(at(-1, 0))));
    set_tile(&mut store, at(0, 1), TileType::Empty);
    set_tile(&mut store, at(0, 2), TileType::Dirt);
    set_tile(&mut store, at(0, 3), TileType::Sand);
    let sand = sand_tile(&store, 0, 3);
    assert_eq!(get_fall_coord(&store, at(0, 3), 2, sand), Ok(Some(at(-1, 2))));
    set_tile(&mut store, at(-1, 2), TileType::Dirt);
    assert_eq!(get_fall_coord(&store, at(0, 3), 2, sand), Ok(Some(at(1, 2))));
    set_tile(&mut store, at(0, 3), TileType::Empty);
    set_tile(&mut store, at(0, 2), TileType::Empty);
    set_tile(&mut store, at(-1, 2), TileType::Empty);
    set_tile(&mut store, at(0, 1), TileType::Dirt);
    set_tile(&mut store, at(0, 2), TileType::Sand);
    let sand = sand_tile(&store, 0, 2);
    assert_eq!(get_fall_coord(&store, at(0, 2), 2, sand), Ok(Some(at(1, 1))));
}

#[test]
fn wall_beside_a_tile_closes_that_side() {
    let mut store = world_with_floor();
    set_tile(&mut store, at(0, 0), TileType::Dirt);
    set_tile(&mut store, at(-1, 1), TileType::Dirt);
    set_tile(&mut store, at(1, 0), TileType::Dirt);
    set_tile(&mut store, at(0, 1), TileType::Sand);
    let sand = sand_tile(&store, 0, 1);
    assert_eq!(get_fall_coord(&store, at(0, 1), 2, sand), Ok(Some(at(2, 0))));
    assert_eq!(get_fall_coord(&store, at(0, 1), 1, sand), Ok(None));
    set_tile(&mut store, at(1, 1), TileType::Dirt);
    assert_eq!(get_fall_coord(&store, at(0, 1), 2, sand), Ok(None));
}

#[test]
fn search_that_meets_an_unloaded_chunk_fails() {
    let mut store = empty_world(&[(0, 0)]);
    set_tile(&mut store, at(5, 0), TileType::Sand);
    let sand = sand_tile(&store, 5, 0);
    assert_eq!(get_fall_coord(&store, at(5, 0), 2, sand), Err(ChunkNotLoaded));
    set_tile(&mut store, at(0, 5), TileType::Sand);
    set_tile(&mut store, at(0, 4), TileType::Dirt);
    let sand = sand_tile(&store, 0, 5);
    assert_eq!(get_fall_coord(&store, at(0, 5), 2, sand), Err(ChunkNotLoaded));
    assert_eq!(get_fall_coord(&store, at(0, 5), 0, sand), Ok(None));
}

#[test]
fn tile_at_the_edge_of_the_world_stays_and_rests() {
    let mut store = empty_world(&[(0, 0)]);
    set_tile(&mut store, at(5, 0), TileType::Sand);
    set_tile(&mut store, at(31, 0), water(255));
    set_tile(&mut store, at(30, 0), TileType::Dirt);
    apply_gravity(&mut store);
    assert_eq!(kind(&store, 5, 0), TileType::Sand);
    assert_eq!(marker(&store, 5, 0), Marker::Resting);
    assert_eq!(kind(&store, 31, 0), water(255));
    assert_eq!(marker(&store, 31, 0), Marker::Flowing(FlowingTile { x: 31 }));
    flow_liquid_tile(&mut store, 1);
    assert_eq!(kind(&store, 31, 0), water(255));
    assert_eq!(marker(&store, 31, 0), Marker::Resting);
}

#[test]
fn gravity_pass_moves_the_lowest_tile_first() {
    let mut store = world_with_floor();
    set_tile(&mut store, at(3, 2), TileType::Gravel);
    set_tile(&mut store, at(3, 1), TileType::Gravel);
    apply_gravity(&mut store);
    assert_eq!(kind(&store, 3, 0), TileType::Gravel);
    assert_eq!(kind(&store, 3, 1), TileType::Gravel);
    assert_eq!(kind(&store, 3, 2), TileType::Empty);
    assert_eq!(marker(&store, 3, 0), Marker::Falling(FallingTile { y: 0 }));
    assert_eq!(marker(&store, 3, 1), Marker::Falling(FallingTile { y: 1 }));
}

#[test]
fn settle_leaves_unmarked_cells_alone() {
    let mut store = world_with_floor();
    set_tile(&mut store, at(3, 3), TileType::Dirt);
    store.take_updates();
    settle_tile(&mut store, at(3, 3));
    settle_tile(&mut store, at(4, 3));
    settle_tile(&mut store, at(400, 3));
    assert_eq!(kind(&store, 3, 3), TileType::Dirt);
    assert_eq!(kind(&store, 3, 2), TileType::Empty);
    assert!(store.take_updates().is_empty());
}

#[test]
fn liquid_that_cannot_fall_starts_to_flow() {
    let mut store = world_with_pit(3, 3);
    set_tile(&mut store, at(3, 0), water(200));
    apply_gravity(&mut store);
    assert_eq!(marker(&store, 3, 0), Marker::Flowing(FlowingTile { x: 3 }));
    assert_eq!(kind(&store, 3, 0), water(200));
}

#[test]
fn liquid_pours_into_the_same_liquid_below() {
    let mut store = world_with_pit(3, 3);
    set_tile(&mut store, at(3, 0), water(200));
    set_tile(&mut store, at(3, 1), water(100));
    tick(&mut store, 0);
    assert_eq!(kind(&store, 3, 0), water(255));
    assert_eq!(kind(&store, 3, 1), water(45));
    assert_eq!(level(&store, 3, 0) as u32 + level(&store, 3, 1) as u32, 300);
}

#[test]
fn liquid_that_fits_below_leaves_an_empty_cell() {
    let mut store = world_with_pit(3, 3);
    set_tile(&mut store, at(3, 0), water(100));
    set_tile(&mut store, at(3, 1), water(100));
    tick(&mut store, 0);
    assert_eq!(kind(&store, 3, 0), water(200));
    assert_eq!(kind(&store, 3, 1), TileType::Empty);
    let mut store = world_with_pit(3, 3);
    set_tile(&mut store, at(3, 0), water(155));
    set_tile(&mut store, at(3, 1), water(100));
    tick(&mut store, 0);
    assert_eq!(kind(&store, 3, 0), water(255));
    assert_eq!(kind(&store, 3, 1), TileType::Empty);
}

#[test]
fn liquid_in_a_tight_pit_comes_to_rest() {
    let mut store = world_with_pit(3, 3);
    set_tile(&mut store, at(3, 0), water(200));
    tick(&mut store, 0);
    assert_eq!(marker(&store, 3, 0), Marker::Resting);
    assert_eq!(kind(&store, 3, 0), water(200));
    for t in 1..5 {
        tick(&mut store, t);
        assert_eq!(marker(&store, 3, 0), Marker::Resting);
        assert_eq!(kind(&store, 3, 0), water(200));
    }
}

#[test]
fn liquid_with_momentum_one_comes_to_rest() {
    let mut store = world_with_pit(3, 4);
    let slow = Liquid { level: 100, flowing_right: Some(true), momentum: 1, sprite_override: false };
    set_tile(&mut store, at(3, 0), TileType::Water(slow));
    set_tile(&mut store, at(4, 0), TileType::Water(Liquid { level: 101, ..slow }));
    apply_gravity(&mut store);
    assert_eq!(marker(&store, 3, 0), Marker::Flowing(FlowingTile { x: 3 }));
    store.take_updates();
    flow_tile(&mut store, at(3, 0), 0);
    assert_eq!(marker(&store, 3, 0), Marker::Resting);
    assert_eq!(kind(&store, 3, 0), TileType::Water(slow));
    assert_eq!(kind(&store, 4, 0), TileType::Water(Liquid { level: 101, ..slow }));
    assert!(store.take_updates().is_empty());
}

#[test]
fn resting_liquid_flows_again_when_a_neighbour_changes() {
    let mut store = world_with_pit(3, 3);
    set_tile(&mut store, at(5, 0), TileType::Dirt);
    set_tile(&mut store, at(3, 0), water(200));
    handle_updates(&mut store);
    tick(&mut store, 0);
    assert_eq!(marker(&store, 3, 0), Marker::Resting);
    handle_updates(&mut store);
    set_tile(&mut store, at(4, 0), TileType::Empty);
    assert_eq!(marker(&store, 3, 0), Marker::Resting);
    handle_updates(&mut store);
    assert_eq!(marker(&store, 3, 0), Marker::Falling(FallingTile { y: 0 }));
    tick(&mut store, 2);
    assert_eq!(kind(&store, 3, 0).get_liquid().unwrap().level, 100);
    assert_eq!(kind(&store, 4, 0).get_liquid().unwrap().level, 100);
}

#[test]
fn two_columns_level_out() {
    let mut store = world_with_pit(3, 4);
    set_tile(&mut store, at(3, 0), water(200));
    tick(&mut store, 0);
    assert_eq!(level(&store, 3, 0), 100);
    assert_eq!(level(&store, 4, 0), 100);
    let left = kind(&store, 3, 0).get_liquid().unwrap();
    let right = kind(&store, 4, 0).get_liquid().unwrap();
    assert_eq!(left.momentum, INITIAL_LIQUID_MOMENTUM);
    assert_eq!(right.momentum, 200);
    assert!(left.flowing_right.is_some());
    assert_eq!(left.flowing_right, right.flowing_right);
    let mut momentum = 200;
    for t in 1..40 {
        tick(&mut store, t);
        assert_eq!(level(&store, 3, 0) as u32 + level(&store, 4, 0) as u32, 200);
        assert_eq!(level(&store, 3, 0), 100);
        let now = kind(&store, 3, 0).get_liquid().unwrap().momentum;
        assert!(now <= momentum);
        momentum = now;
    }
    assert!(momentum < 200);
}

#[test]
fn uneven_amount_levels_to_within_one() {
    let mut store = world_with_pit(3, 5);
    set_tile(&mut store, at(4, 0), water(200));
    tick(&mut store, 0);
    let levels = (level(&store, 3, 0), level(&store, 4, 0), level(&store, 5, 0));
    assert_eq!(levels.0 as u32 + levels.1 as u32 + levels.2 as u32, 200);
    assert_eq!(levels, (67, 66, 67));
}

#[test]
fn magma_takes_the_cell_of_water_beside_it() {
    let mut store = world_with_pit(3, 4);
    set_tile(&mut store, at(3, 0), magma(255));
    set_tile(&mut store, at(4, 0), water(255));
    tick(&mut store, 10);
    assert_eq!(level(&store, 3, 0), 127);
    assert_eq!(level(&store, 4, 0), 128);
    assert!(matches!(kind(&store, 3, 0), TileType::Magma(_)));
    assert!(matches!(kind(&store, 4, 0), TileType::Magma(_)));
}

#[test]
fn water_beside_magma_is_blocked_by_it() {
    let mut store = world_with_pit(3, 4);
    set_tile(&mut store, at(3, 0), magma(255));
    set_tile(&mut store, at(4, 0), water(255));
    apply_gravity(&mut store);
    flow_tile(&mut store, at(4, 0), 10);
    assert_eq!(kind(&store, 3, 0), magma(255));
    assert_eq!(kind(&store, 4, 0), water(255));
    assert_eq!(marker(&store, 4, 0), Marker::Resting);
}

#[test]
fn thick_liquid_waits_for_its_tick() {
    let mut store = world_with_pit(3, 4);
    set_tile(&mut store, at(3, 0), magma(255));
    set_tile(&mut store, at(4, 0), water(255));
    apply_gravity(&mut store);
    for t in 11..20 {
        flow_tile(&mut store, at(3, 0), t);
        assert_eq!(kind(&store, 3, 0), magma(255));
        assert_eq!(kind(&store, 4, 0), water(255));
        assert_eq!(marker(&store, 3, 0), Marker::Flowing(FlowingTile { x: 3 }));
    }
    flow_tile(&mut store, at(3, 0), 20);
    assert!(matches!(kind(&store, 4, 0), TileType::Magma(_)));
    let mut store = world_with_pit(3, 4);
    set_tile(&mut store, at(3, 0), oil(200));
    apply_gravity(&mut store);
    flow_tile(&mut store, at(3, 0), 5);
    assert_eq!(kind(&store, 3, 0), oil(200));
    flow_tile(&mut store, at(3, 0), 6);
    assert_eq!(level(&store, 3, 0), 100);
    assert_eq!(level(&store, 4, 0), 100);
    assert!(matches!(kind(&store, 4, 0), TileType::Oil(_)));
}

#[test]
fn water_on_magma_is_vaporized() {
    let mut store = world_with_pit(3, 3);
    set_tile(&mut store, at(3, 0), magma(255));
    set_tile(&mut store, at(3, 1), water(255));
    tick(&mut store, 0);
    assert_eq!(kind(&store, 3, 1), TileType::Empty);
    assert_eq!(kind(&store, 3, 0), magma(255));
}

#[test]
fn magma_on_water_vaporizes_it_and_takes_its_cell() {
    let mut store = world_with_pit(3, 3);
    set_tile(&mut store, at(3, 0), water(255));
    set_tile(&mut store, at(3, 1), magma(180));
    tick(&mut store, 0);
    assert_eq!(kind(&store, 3, 1), TileType::Empty);
    assert_eq!(kind(&store, 3, 0), magma(180));
}

#[test]
fn oil_floats_on_water_and_water_sinks_through_oil() {
    let mut store = world_with_pit(3, 3);
    set_tile(&mut store, at(3, 0), water(255));
    set_tile(&mut store, at(3, 1), oil(255));
    tick(&mut store, 0);
    assert!(matches!(kind(&store, 3, 1), TileType::Oil(_)));
    let below = kind(&store, 3, 0).get_liquid().unwrap();
    assert!(matches!(kind(&store, 3, 0), TileType::Water(_)));
    assert!(below.sprite_override);
    assert_eq!(below.level, 255);
    let mut store = world_with_pit(3, 3);
    set_tile(&mut store, at(3, 0), oil(255));
    set_tile(&mut store, at(3, 1), water(90));
    tick(&mut store, 0);
    assert_eq!(kind(&store, 3, 0), water(90));
    assert_eq!(kind(&store, 3, 1), oil(255));
}

#[test]
fn flow_pass_leaves_other_liquids_alone() {
    let mut store = world_with_pit(3, 3);
    set_tile(&mut store, at(3, 0), water(200));
    store.take_updates();
    flow_liquid_tile(&mut store, 0);
    assert_eq!(marker(&store, 3, 0), Marker::Falling(FallingTile { y: 0 }));
    assert!(store.take_updates().is_empty());
    flow_tile(&mut store, at(3, 0), 0);
    flow_tile(&mut store, at(300, 0), 0);
    assert_eq!(kind(&store, 3, 0), water(200));
}

#[test]
fn same_start_and_same_ticks_give_the_same_world() {
    let build = || {
        let mut store = world_with_floor();
        for x in -6..6 {
            set_tile(&mut store, at(x, 8), TileType::Sand);
            set_tile(&mut store, at(x, 9), water(200));
            set_tile(&mut store, at(x * 2, 12), oil(90));
            set_tile(&mut store, at(x, 3), TileType::Gravel);
        }
        set_tile(&mut store, at(0, 14), magma(255));
        set_tile(&mut store, at(3, 0), TileType::Dirt);
        store
    };
    let mut first = build();
    let mut second = build();
    for t in 0..60 {
        tick(&mut first, t);
        handle_updates(&mut first);
        tick(&mut second, t);
        handle_updates(&mut second);
    }
    assert_eq!(snapshot(&first), snapshot(&second));
    let total: u32 = snapshot(&first).iter().filter(|c| matches!(c.0, TileType::Sand)).count() as u32;
    assert_eq!(total, 12);
}

#[test]
fn notification_marks_weighted_tiles_and_sets_outlines() {
    let mut store = world_with_floor();
    set_tile(&mut store, at(3, 0), TileType::Sand);
    tick(&mut store, 0);
    assert_eq!(marker(&store, 3, 0), Marker::Resting);
    store.take_updates();
    assert_eq!(update_tile(&mut store, UpdateTileEvent(at(3, 0))).map(|e| e.coord), None);
    assert_eq!(marker(&store, 3, 0), Marker::Falling(FallingTile { y: 0 }));
    assert_eq!(store.get_tile(at(3, 0)).unwrap().outline_id, 14);
    update_tile(&mut store, UpdateTileEvent(at(3, -1)));
    assert_eq!(store.get_tile(at(3, -1)).unwrap().outline_id, 5);
    assert_eq!(marker(&store, 3, -1), Marker::Resting);
    update_tile(&mut store, UpdateTileEvent(at(4, 0)));
    assert_eq!(store.get_tile(at(4, 0)).unwrap().outline_id, 40);
    assert!(update_tile(&mut store, UpdateTileEvent(at(400, 0))).is_none());
    assert!(store.take_updates().is_empty());
}

#[test]
fn outline_update_reports_only_changes() {
    let mut store = world_with_floor();
    set_tile(&mut store, at(3, 3), TileType::Dirt);
    let tile = store.get_tile(at(3, 3)).unwrap();
    assert_eq!(update_outline_sprite(&mut store, tile), Some(31));
    let tile = store.get_tile(at(3, 3)).unwrap();
    assert_eq!(tile.outline_id, 31);
    assert_eq!(update_outline_sprite(&mut store, tile), None);
    set_tile(&mut store, at(4, 3), TileType::Dirt);
    set_tile(&mut store, at(3, 4), water(255));
    assert_eq!(update_outline_sprite(&mut store, tile), Some(15));
    let liquid = store.get_tile(at(3, 4)).unwrap();
    assert_eq!(update_outline_sprite(&mut store, liquid), Some(40));
}

#[test]
fn covered_liquid_asks_to_show_it() {
    let mut store = world_with_pit(3, 3);
    set_tile(&mut store, at(3, 0), water(255));
    set_tile(&mut store, at(3, 1), oil(255));
    store.take_updates();
    let request = update_tile(&mut store, UpdateTileEvent(at(3, 0))).unwrap();
    assert_eq!(request.coord, at(3, 0));
    assert_eq!(
        request.new_tile_type,
        TileType::Water(Liquid { sprite_override: true, ..Liquid::default() })
    );
    assert_eq!(request.prev_maptile.unwrap().tile_type, water(255));
    assert!(update_tile(&mut store, UpdateTileEvent(at(3, 1))).is_none());
    set_tile(&mut store, at(3, 1), water(255));
    assert!(update_tile(&mut store, UpdateTileEvent(at(3, 0))).is_none());
}

#[test]
fn liquid_does_not_pour_into_a_cell_diagonally_below() {
    let mut store = world_with_pit(3, 4);
    set_tile(&mut store, at(2, 4), TileType::Dirt);
    set_tile(&mut store, at(5, 4), TileType::Dirt);
    set_tile(&mut store, at(3, 0), TileType::Dirt);
    set_tile(&mut store, at(4, 0), water(100));
    set_tile(&mut store, at(3, 1), water(255));
    set_tile(&mut store, at(4, 1), TileType::Dirt);
    apply_gravity(&mut store);
    assert_eq!(marker(&store, 3, 1), Marker::Flowing(FlowingTile { x: 3 }));
    flow_tile(&mut store, at(3, 1), 0);
    assert_eq!(kind(&store, 4, 0), water(100));
    assert_eq!(kind(&store, 3, 1), water(255));
}

#[test]
fn outline_event_records_the_outline() {
    let mut store = world_with_floor();
    set_tile(&mut store, at(3, 3), TileType::Dirt);
    assert_eq!(update_outline_sprite_event(&mut store, UpdateOutlineSpriteEvent(at(3, 3))), Some(31));
    assert_eq!(update_outline_sprite_event(&mut store, UpdateOutlineSpriteEvent(at(3, 3))), None);
    assert_eq!(update_outline_sprite_event(&mut store, UpdateOutlineSpriteEvent(at(300, 3))), None);
    assert_eq!(store.get_tile(at(3, 3)).unwrap().outline_id, 31);
}

#[test]
fn tick_numbers_go_up_by_one_per_firing() {
    let mut timer = TickTimer::new();
    assert_eq!(timer.ticks(), 0);
    assert_eq!(timer.fire(false), None);
    assert_eq!(timer.fire(true), Some(TickEvent(1)));
    assert_eq!(timer.fire(true), Some(TickEvent(2)));
    assert_eq!(timer.fire(false), None);
    assert_eq!(timer.fire(true), Some(TickEvent(3)));
    assert_eq!(timer.ticks(), 3);
}

#[test]
fn weighted_tile_knows_its_granularity() {
    let mut store = world_with_floor();
    set_tile(&mut store, at(1, 1), TileType::Sand);
    set_tile(&mut store, at(2, 1), TileType::Dirt);
    set_tile(&mut store, at(3, 1), water(128));
    assert_eq!(store.get_tile(at(1, 1)).unwrap().weighted().map(|w| w.granularity), Some(2));
    assert_eq!(store.get_tile(at(2, 1)).unwrap().weighted().map(|w| w.granularity), None);
    assert_eq!(store.get_tile(at(3, 1)).unwrap().weighted().map(|w| w.granularity), Some(4));
    let seen = store.get_tile(at(1, 1)).unwrap().tile();
    assert_eq!(seen.tile_type, TileType::Sand);
    assert_eq!(seen.coord, at(1, 1));
}

#[test]
fn gravity_pass_goes_by_rows_not_by_columns() {
    let mut store = world_with_floor();
    for (x, y) in [(1, 1), (2, 1), (3, 1), (5, 1)] {
        set_tile(&mut store, at(x, y), TileType::Dirt);
    }
    set_tile(&mut store, at(3, 2), TileType::Sand);
    set_tile(&mut store, at(4, 1), TileType::Sand);
    apply_gravity(&mut store);
    assert_eq!(kind(&store, 4, 0), TileType::Sand);
    assert_eq!(kind(&store, 4, 1), TileType::Sand);
    assert_eq!(kind(&store, 3, 2), TileType::Empty);
}

#[test]
fn flow_pass_goes_from_the_left_in_even_ticks_and_from_the_right_in_odd_ticks() {
    let build = || {
        let mut store = world_with_pit(3, 5);
        set_tile(&mut store, at(3, 0), water(100));
        set_tile(&mut store, at(5, 0), water(100));
        apply_gravity(&mut store);
        store
    };
    let mut even = build();
    flow_liquid_tile(&mut even, 0);
    assert_eq!((level(&even, 3, 0), level(&even, 4, 0), level(&even, 5, 0)), (50, 75, 75));
    let mut odd = build();
    flow_liquid_tile(&mut odd, 1);
    assert_eq!((level(&odd, 3, 0), level(&odd, 4, 0), level(&odd, 5, 0)), (75, 75, 50));
}

fn oil_over_a_row_of_oil(water_x: i32) -> ChunkStore {
    let mut store = world_with_floor();
    set_tile(&mut store, at(31, 0), TileType::Dirt);
    set_tile(&mut store, at(water_x - 1, 0), TileType::Dirt);
    set_tile(&mut store, at(water_x, 0), water(255));
    for x in water_x + 1..=30 {
        set_tile(&mut store, at(x, 0), oil(255));
    }
    set_tile(&mut store, at(30, 1), oil(255));
    apply_gravity(&mut store);
    store
}

#[test]
fn search_reaches_as_far_as_the_square_of_the_fluidity() {
    let mut store = oil_over_a_row_of_oil(5);
    assert_eq!(marker(&store, 30, 1), Marker::Flowing(FlowingTile { x: 30 }));
    flow_tile(&mut store, at(30, 1), 0);
    assert!(kind(&store, 5, 0).get_liquid().unwrap().sprite_override);
    assert_eq!(kind(&store, 30, 1), oil(255));
    let mut store = oil_over_a_row_of_oil(4);
    flow_tile(&mut store, at(30, 1), 0);
    assert!(!kind(&store, 4, 0).get_liquid().unwrap().sprite_override);
    assert!(matches!(kind(&store, 4, 0), TileType::Water(_)));
}
