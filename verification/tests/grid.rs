use tilegame::grid::{
    create_tile_event, despawn_chunk, destroy_tile_event, render_chunks, spawn_chunk,
    xorshift_from_coord, ChunkNotLoaded, ChunkStore, Coordinate, CreateTileEvent,
    DestroyTileEvent, TileEntities, CHUNK_AREA, CHUNK_SIZE, OUTLINE_STALE,
};
use tilegame::players::Player;
use tilegame::tilephysics::FlowingTile;
use tilegame::tiles::{set_tile, set_tile_result, FallingTile, Marker};
use tilegame::tiletypes::{Liquid, TileType};

fn tile(x: i32, y: i32) -> Coordinate {
    Coordinate::Tile { x, y }
}

fn chunk(x: i32, y: i32) -> Coordinate {
    Coordinate::Chunk { x, y }
}

fn handles_for(index: usize) -> TileEntities {
    let base = index as u64 * 4;
    TileEntities {
        tile_entity: base,
        outline_entity: base + 1,
        sprite_entity: base + 2,
        light_entity: base + 3,
    }
}

fn load_chunk(store: &mut ChunkStore, cx: i32, cy: i32, fill: TileType) -> Option<u64> {
    let entities: Vec<TileEntities> = (0..CHUNK_AREA).map(handles_for).collect();
    let generated = vec![fill; CHUNK_AREA];
    spawn_chunk(store, chunk(cx, cy), (7000 + cx as i64) as u64, &entities, &generated)
}

fn store_with_chunks(chunks: &[(i32, i32)]) -> ChunkStore {
    let mut store = ChunkStore::new();
    for &(cx, cy) in chunks {
        load_chunk(&mut store, cx, cy, TileType::Empty);
    }
    store.take_updates();
    store
}

fn event_positions(store: &mut ChunkStore) -> Vec<(i32, i32)> {
    store.take_updates().iter().map(|event| (event.0.x_i32(), event.0.y_i32())).collect()
}

#[test]
fn tile_is_found_again_from_chunk_and_place() {
    let samples = [
        0,
        1,
        31,
        32,
        33,
        63,
        64,
        -1,
        -31,
        -32,
        -33,
        -64,
        -65,
        1000,
        -1000,
        i32::MAX,
        i32::MIN,
        i32::MIN + 31,
        i32::MIN + 32,
    ];
    for &x in samples.iter() {
        for &y in samples.iter() {
            let t = tile(x, y);
            let c = t.as_chunk_coord();
            let l = t.as_chunklocal_coord();
            assert!(l.x_u8() < 32 && l.y_u8() < 32);
            assert_eq!(c.x_i32() as i64 * CHUNK_SIZE as i64 + l.x_u8() as i64, x as i64);
            assert_eq!(c.y_i32() as i64 * CHUNK_SIZE as i64 + l.y_u8() as i64, y as i64);
        }
    }
}

#[test]
fn chunk_of_negative_tiles_rounds_down() {
    assert_eq!(tile(-1, -1).as_chunk_coord(), chunk(-1, -1));
    assert_eq!(tile(-32, -33).as_chunk_coord(), chunk(-1, -2));
    assert_eq!(tile(31, 32).as_chunk_coord(), chunk(0, 1));
    assert_eq!(tile(i32::MIN, i32::MAX).as_chunk_coord(), chunk(-67108864, 67108863));
    assert_eq!(chunk(5, -6).as_chunk_coord(), chunk(5, -6));
}

#[test]
fn place_in_chunk_is_never_negative() {
    let l = tile(-1, -32).as_chunklocal_coord();
    assert_eq!((l.x_u8(), l.y_u8()), (31, 0));
    let l = tile(-33, 70).as_chunklocal_coord();
    assert_eq!((l.x_u8(), l.y_u8()), (31, 6));
    let l = tile(i32::MIN, i32::MAX).as_chunklocal_coord();
    assert_eq!((l.x_u8(), l.y_u8()), (0, 31));
}

#[test]
fn coordinate_numbers() {
    let t = tile(-7, 9);
    assert_eq!((t.x_i32(), t.y_i32()), (-7, 9));
    assert_eq!((t.x_isize(), t.y_isize()), (-7, 9));
    let l = Coordinate::ChunkLocal { x: 3, y: 200 };
    assert_eq!((l.x_i32(), l.y_i32()), (3, 200));
    assert_eq!((l.x_u8(), l.y_u8()), (3, 200));
    assert_eq!(t.as_tile_coord(), t);
}

#[test]
fn coordinates_are_equal_by_their_numbers() {
    assert_eq!(tile(3, 4), tile(3, 4));
    assert_eq!(tile(3, 4), chunk(3, 4));
    assert_eq!(tile(3, 4), Coordinate::ChunkLocal { x: 3, y: 4 });
    assert_ne!(tile(3, 4), tile(4, 3));
    assert_ne!(tile(3, 4), tile(3, 5));
}

#[test]
fn moved_adds_the_offsets() {
    assert_eq!(tile(3, 4).moved(-5, 2), tile(-2, 6));
    assert!(matches!(tile(3, 4).moved(1, 1), Coordinate::Tile { x: 4, y: 5 }));
    assert!(matches!(chunk(3, 4).moved(0, -1), Coordinate::Chunk { x: 3, y: 3 }));
}

#[test]
fn checked_moved_stops_at_the_edge_of_the_grid() {
    assert_eq!(tile(i32::MAX, 0).checked_moved(1, 0), None);
    assert_eq!(tile(0, i32::MIN).checked_moved(0, -1), None);
    assert_eq!(tile(i32::MAX, 0).checked_moved(-1, 0), Some(tile(i32::MAX - 1, 0)));
    assert_eq!(Coordinate::ChunkLocal { x: 1, y: 1 }.checked_moved(1, 0), None);
}

#[test]
fn hash_of_a_position() {
    assert_eq!(xorshift_from_coord(tile(0, 0)), 0);
    assert_eq!(xorshift_from_coord(tile(3, 5)), 405553);
    assert_eq!(xorshift_from_coord(tile(-3, 5)), 380974);
    assert_eq!(xorshift_from_coord(tile(0, 5)), 135184);
    assert_eq!(xorshift_from_coord(tile(1, 0)), 27036);
    assert_eq!(xorshift_from_coord(tile(100000, 100000)), 97242134);
}

#[test]
fn hash_is_the_same_each_time() {
    for x in -20..20 {
        for y in -20..20 {
            assert_eq!(xorshift_from_coord(tile(x, y)), xorshift_from_coord(tile(x, y)));
        }
    }
}

#[test]
fn raycast_holds_both_ends() {
    let ray = tile(0, 1).raycast_to(tile(6, 4));
    let expected =
        vec![tile(0, 1), tile(1, 1), tile(2, 2), tile(3, 2), tile(4, 3), tile(5, 3), tile(6, 4)];
    assert_eq!(ray, expected);
    assert!(ray.iter().all(|c| matches!(c, Coordinate::Tile { .. })));
}

#[test]
fn raycast_backwards_and_straight() {
    let ray = tile(6, 4).raycast_to(tile(0, 1));
    let expected =
        vec![tile(6, 4), tile(5, 4), tile(4, 3), tile(3, 3), tile(2, 2), tile(1, 2), tile(0, 1)];
    assert_eq!(ray, expected);
    assert_eq!(tile(2, 3).raycast_to(tile(2, 6)), vec![tile(2, 3), tile(2, 4), tile(2, 5), tile(2, 6)]);
    assert_eq!(tile(-2, -3).raycast_to(tile(-5, -3)), vec![tile(-2, -3), tile(-3, -3), tile(-4, -3), tile(-5, -3)]);
}

#[test]
fn raycast_to_itself_is_one_tile() {
    assert_eq!(tile(9, -9).raycast_to(tile(9, -9)), vec![tile(9, -9)]);
}

#[test]
fn unloaded_chunk_is_not_an_empty_cell() {
    let store = store_with_chunks(&[(0, 0)]);
    assert!(matches!(store.get_tile(tile(-1, 0)), Err(ChunkNotLoaded)));
    assert!(matches!(store.get_tile(tile(32, 0)), Err(ChunkNotLoaded)));
    let found = store.get_tile(tile(31, 31)).unwrap();
    assert_eq!(found.tile_type, TileType::Empty);
    assert_eq!(found.tile_coord, tile(31, 31));
    assert!(ChunkStore::new().get_tile(tile(0, 0)).is_err());
}

#[test]
fn spawned_chunk_holds_the_generated_tiles() {
    let mut store = ChunkStore::new();
    let entities: Vec<TileEntities> = (0..CHUNK_AREA).map(handles_for).collect();
    let mut generated = vec![TileType::Empty; CHUNK_AREA];
    generated[0] = TileType::Dirt;
    generated[1] = TileType::Gravel;
    generated[32] = TileType::Moss;
    generated[1023] = TileType::Water(Liquid { level: 0, ..Liquid::default() });
    generated[1022] = TileType::Water(Liquid::default());
    let replaced = spawn_chunk(&mut store, chunk(-1, 2), 99, &entities, &generated);
    assert_eq!(replaced, None);
    assert!(store.is_loaded(-1, 2));
    assert!(!store.is_loaded(0, 0));
    assert_eq!(store.loaded_chunks(), vec![(-1, 2)]);
    let first = store.get_tile(tile(-32, 64)).unwrap();
    assert_eq!(first.tile_type, TileType::Dirt);
    assert_eq!(first.marker, Marker::Resting);
    assert_eq!(first.tile_coord, tile(-32, 64));
    assert_eq!(first.outline_id, OUTLINE_STALE);
    assert_eq!(first.light_level, 0);
    assert_eq!((first.tile_entity, first.outline_entity, first.sprite_entity, first.light_entity), (0, 1, 2, 3));
    let second = store.get_tile(tile(-32, 65)).unwrap();
    assert_eq!(second.tile_type, TileType::Gravel);
    assert_eq!(second.marker, Marker::Falling(FallingTile { y: 65 }));
    assert_eq!(second.tile_entity, 4);
    assert_eq!(store.get_tile(tile(-31, 64)).unwrap().tile_type, TileType::Moss);
    assert_eq!(store.get_tile(tile(-1, 95)).unwrap().tile_type, TileType::Empty);
    assert_eq!(store.get_tile(tile(-1, 94)).unwrap().tile_type, TileType::Water(Liquid::default()));
    assert_eq!(store.get_tile(tile(-1, 95)).unwrap().tile_entity, 1023 * 4);
}

#[test]
fn spawning_notifies_every_tile_and_the_seam() {
    let mut store = ChunkStore::new();
    load_chunk(&mut store, 0, 0, TileType::Empty);
    let events = event_positions(&mut store);
    assert_eq!(events.len(), 1024 * 9 + 132);
    assert_eq!(&events[0..9], &[(-1, -1), (-1, 0), (-1, 1), (0, -1), (0, 0), (0, 1), (1, -1), (1, 0), (1, 1)]);
    let seam = &events[1024 * 9..];
    assert_eq!(seam[0], (-1, -1));
    assert_eq!(seam[33], (-1, 32));
    assert_eq!(seam[34], (0, -1));
    assert_eq!(seam[65], (31, -1));
    assert_eq!(seam[66], (0, 32));
    assert_eq!(seam[97], (31, 32));
    assert_eq!(seam[98], (32, -1));
    assert_eq!(seam[131], (32, 32));
    assert!(seam.iter().all(|&(x, y)| x == -1 || x == 32 || y == -1 || y == 32));
}

#[test]
fn spawning_over_a_chunk_replaces_it() {
    let mut store = ChunkStore::new();
    assert_eq!(load_chunk(&mut store, 3, 3, TileType::Dirt), None);
    assert_eq!(store.get_tile(tile(100, 100)).unwrap().tile_type, TileType::Dirt);
    assert_eq!(load_chunk(&mut store, 3, 3, TileType::Moss), Some(7003));
    assert_eq!(store.get_tile(tile(100, 100)).unwrap().tile_type, TileType::Moss);
    assert_eq!(store.loaded_chunks().len(), 1);
}

#[test]
fn despawned_chunk_is_gone() {
    let mut store = store_with_chunks(&[(0, 0), (1, 0)]);
    assert_eq!(despawn_chunk(&mut store, chunk(0, 0)), Some(7000));
    assert!(store.get_tile(tile(5, 5)).is_err());
    assert!(store.get_tile(tile(40, 5)).is_ok());
    assert_eq!(despawn_chunk(&mut store, chunk(0, 0)), None);
    assert_eq!(store.loaded_chunks(), vec![(1, 0)]);
    assert!(event_positions(&mut store).is_empty());
}

#[test]
fn set_tile_hands_back_the_cell_as_it_was() {
    let mut store = store_with_chunks(&[(0, 0)]);
    let before = set_tile_result(&mut store, tile(4, 4), TileType::Sand).unwrap();
    assert_eq!(before.tile_type, TileType::Empty);
    assert_eq!(before.tile_coord, tile(4, 4));
    let before = set_tile_result(&mut store, tile(4, 4), TileType::Dirt).unwrap();
    assert_eq!(before.tile_type, TileType::Sand);
    assert_eq!(before.marker, Marker::Falling(FallingTile { y: 4 }));
    let now = store.get_tile(tile(4, 4)).unwrap();
    assert_eq!(now.tile_type, TileType::Dirt);
    assert_eq!(now.marker, Marker::Resting);
    assert_eq!(now.outline_id, OUTLINE_STALE);
    assert_eq!(now.tile_entity, before.tile_entity);
    assert_eq!(now.light_entity, before.light_entity);
}

#[test]
fn set_tile_in_unloaded_chunk_changes_nothing() {
    let mut store = store_with_chunks(&[(0, 0)]);
    assert!(matches!(set_tile_result(&mut store, tile(-1, 0), TileType::Sand), Err(ChunkNotLoaded)));
    set_tile(&mut store, tile(0, 32), TileType::Sand);
    assert!(event_positions(&mut store).is_empty());
    assert_eq!(store.loaded_chunks(), vec![(0, 0)]);
}

#[test]
fn set_tile_notifies_the_cell_and_its_neighbours() {
    let mut store = store_with_chunks(&[(0, 0)]);
    set_tile(&mut store, tile(10, 20), TileType::Dirt);
    assert_eq!(
        event_positions(&mut store),
        vec![(9, 19), (9, 20), (9, 21), (10, 19), (10, 20), (10, 21), (11, 19), (11, 20), (11, 21)]
    );
    assert!(event_positions(&mut store).is_empty());
}

#[test]
fn set_tile_turns_level_zero_into_empty() {
    let mut store = store_with_chunks(&[(0, 0)]);
    set_tile(&mut store, tile(1, 1), TileType::Oil(Liquid { level: 0, ..Liquid::default() }));
    let now = store.get_tile(tile(1, 1)).unwrap();
    assert_eq!(now.tile_type, TileType::Empty);
    assert_eq!(now.marker, Marker::Resting);
}

#[test]
fn set_tile_marks_weighted_tiles_as_falling() {
    let mut store = store_with_chunks(&[(0, 0)]);
    set_tile(&mut store, tile(1, 9), TileType::Water(Liquid::default()));
    set_tile(&mut store, tile(2, 9), TileType::Gravel);
    set_tile(&mut store, tile(3, 9), TileType::Moss);
    assert_eq!(store.get_tile(tile(1, 9)).unwrap().marker, Marker::Falling(FallingTile { y: 9 }));
    assert_eq!(store.get_tile(tile(2, 9)).unwrap().marker, Marker::Falling(FallingTile { y: 9 }));
    assert_eq!(store.get_tile(tile(3, 9)).unwrap().marker, Marker::Resting);
    assert_ne!(store.get_tile(tile(1, 9)).unwrap().marker, Marker::Flowing(FlowingTile { x: 1 }));
}

#[test]
fn outline_and_light_are_recorded() {
    let mut store = store_with_chunks(&[(0, 0)]);
    store.set_outline_id(tile(2, 2), 17);
    store.set_light_level(tile(2, 2), 200);
    store.set_outline_id(tile(-2, 2), 17);
    store.set_light_level(tile(-2, 2), 200);
    let now = store.get_tile(tile(2, 2)).unwrap();
    assert_eq!((now.outline_id, now.light_level), (17, 200));
    assert_eq!(now.tile_type, TileType::Empty);
    assert!(event_positions(&mut store).is_empty());
}

#[test]
fn streaming_asks_for_the_chunks_near_the_player() {
    let store = ChunkStore::new();
    let plan = render_chunks(&store, &Player::Local, chunk(0, 0));
    assert!(plan.despawn.is_empty());
    assert_eq!(plan.spawn.len(), 35);
    assert!(matches!(plan.spawn[0], Coordinate::Chunk { x: -3, y: -2 }));
    assert!(matches!(plan.spawn[1], Coordinate::Chunk { x: -3, y: -1 }));
    assert!(matches!(plan.spawn[4], Coordinate::Chunk { x: -3, y: 2 }));
    assert!(matches!(plan.spawn[5], Coordinate::Chunk { x: -2, y: -2 }));
    assert!(matches!(plan.spawn[34], Coordinate::Chunk { x: 3, y: 2 }));
    for x in -3..=3 {
        for y in -2..=2 {
            assert!(plan.spawn.contains(&chunk(x, y)));
        }
    }
}

#[test]
fn streaming_skips_loaded_chunks_and_drops_far_ones() {
    let store = store_with_chunks(&[(10, 10), (11, 10), (14, 10), (15, 10), (10, 13), (10, 14), (5, 10), (6, 7)]);
    let plan = render_chunks(&store, &Player::Local, chunk(10, 10));
    assert_eq!(plan.spawn.len(), 33);
    assert!(!plan.spawn.contains(&chunk(10, 10)));
    assert!(!plan.spawn.contains(&chunk(11, 10)));
    assert!(plan.spawn.contains(&chunk(12, 11)));
    assert!(plan.spawn.contains(&chunk(13, 10)));
    assert!(plan.spawn.contains(&chunk(10, 12)));
    assert!(plan.spawn.contains(&chunk(13, 12)));
    assert!(plan.spawn.contains(&chunk(7, 8)));
    assert!(!plan.spawn.contains(&chunk(14, 10)));
    assert!(!plan.spawn.contains(&chunk(10, 13)));
    assert!(!plan.spawn.contains(&chunk(6, 10)));
    let far: Vec<(i32, i32)> = plan.despawn.iter().map(|c| (c.x_i32(), c.y_i32())).collect();
    assert_eq!(far, vec![(5, 10), (10, 14), (15, 10)]);
    assert!(plan.despawn.iter().all(|c| matches!(c, Coordinate::Chunk { .. })));
}

#[test]
fn streaming_for_a_remote_player_asks_nothing() {
    let store = store_with_chunks(&[(50, 50)]);
    let plan = render_chunks(&store, &Player::_Remote, chunk(0, 0));
    assert!(plan.despawn.is_empty());
    assert!(plan.spawn.is_empty());
}

#[test]
fn streaming_settles_after_one_round() {
    let mut store = store_with_chunks(&[(20, 0)]);
    let plan = render_chunks(&store, &Player::Local, chunk(0, 0));
    for c in plan.despawn.iter() {
        despawn_chunk(&mut store, *c);
    }
    for c in plan.spawn.iter() {
        load_chunk(&mut store, c.x_i32(), c.y_i32(), TileType::Empty);
    }
    assert_eq!(store.loaded_chunks().len(), 35);
    for x in -3..=3 {
        for y in -2..=2 {
            assert!(store.is_loaded(x, y));
        }
    }
    let again = render_chunks(&store, &Player::Local, chunk(0, 0));
    assert!(again.despawn.is_empty() && again.spawn.is_empty());
    let moved = render_chunks(&store, &Player::Local, chunk(1, 0));
    assert!(moved.despawn.is_empty());
    assert_eq!(moved.spawn.len(), 5);
    assert!(matches!(moved.spawn[0], Coordinate::Chunk { x: 4, y: -2 }));
    assert!(matches!(moved.spawn[4], Coordinate::Chunk { x: 4, y: 2 }));
}

#[test]
fn create_event_puts_the_tile() {
    let mut store = store_with_chunks(&[(0, 0)]);
    let events = vec![
        CreateTileEvent::new(tile(1, 1), TileType::Dirt, None),
        CreateTileEvent::new(tile(-1, 1), TileType::Dirt, None),
        CreateTileEvent::new(tile(1, 1), TileType::Moss, None),
    ];
    create_tile_event(&mut store, &events);
    assert_eq!(store.get_tile(tile(1, 1)).unwrap().tile_type, TileType::Moss);
    assert_eq!(event_positions(&mut store).len(), 18);
}

#[test]
fn create_event_for_a_changed_cell_is_dropped() {
    let mut store = store_with_chunks(&[(0, 0)]);
    set_tile(&mut store, tile(1, 1), TileType::Dirt);
    let seen = store.get_tile(tile(1, 1)).unwrap();
    set_tile(&mut store, tile(1, 1), TileType::Moss);
    store.take_updates();
    let event = CreateTileEvent::new(tile(1, 1), TileType::Sand, Some(seen));
    assert_eq!(event.new_tile_type, TileType::Sand);
    assert_eq!(event.coord, tile(1, 1));
    create_tile_event(&mut store, &vec![event]);
    assert_eq!(store.get_tile(tile(1, 1)).unwrap().tile_type, TileType::Moss);
    assert!(event_positions(&mut store).is_empty());
    let seen = store.get_tile(tile(1, 1)).unwrap();
    create_tile_event(&mut store, &vec![CreateTileEvent::new(tile(1, 1), TileType::Sand, Some(seen))]);
    assert_eq!(store.get_tile(tile(1, 1)).unwrap().tile_type, TileType::Sand);
}

#[test]
fn destroy_event_empties_the_cell() {
    let mut store = store_with_chunks(&[(0, 0)]);
    set_tile(&mut store, tile(1, 1), TileType::Dirt);
    set_tile(&mut store, tile(2, 1), TileType::Dirt);
    store.take_updates();
    destroy_tile_event(&mut store, &vec![DestroyTileEvent(tile(1, 1)), DestroyTileEvent(tile(40, 1))]);
    assert_eq!(store.get_tile(tile(1, 1)).unwrap().tile_type, TileType::Empty);
    assert_eq!(store.get_tile(tile(2, 1)).unwrap().tile_type, TileType::Dirt);
    assert_eq!(event_positions(&mut store).len(), 9);
}

#[test]
fn loaded_chunks_come_in_ascending_order() {
    let store = store_with_chunks(&[(3, 1), (-2, 5), (3, -4), (0, 0), (-2, -7), (10, 0)]);
    assert_eq!(store.loaded_chunks(), vec![(-2, -7), (-2, 5), (0, 0), (3, -4), (3, 1), (10, 0)]);
    assert!(ChunkStore::new().loaded_chunks().is_empty());
}

#[test]
fn streaming_leaves_loaded_chunks_as_they_are() {
    let mut store = store_with_chunks(&[(0, 0)]);
    set_tile(&mut store, tile(3, 3), TileType::Dirt);
    store.take_updates();
    let plan = render_chunks(&store, &Player::Local, chunk(0, 0));
    assert_eq!(plan.spawn.len(), 34);
    assert!(!plan.spawn.contains(&chunk(0, 0)));
    assert!(plan.despawn.is_empty());
    assert_eq!(store.get_tile(tile(3, 3)).unwrap().tile_type, TileType::Dirt);
}

#[test]
fn raycast_starts_at_its_start_and_has_one_tile_per_step() {
    for (a, b) in [((0, 0), (5, 2)), ((0, 0), (-2, 9)), ((3, -4), (3, -4)), ((7, 7), (-7, 6)), ((-1, -1), (-6, -6))] {
        let start = tile(a.0, a.1);
        let end = tile(b.0, b.1);
        let ray = start.raycast_to(end);
        let steps = std::cmp::max((b.0 - a.0 as i32).abs(), (b.1 - a.1 as i32).abs()) as usize;
        assert_eq!(ray.len(), steps + 1);
        assert!(matches!(ray[0], Coordinate::Tile { .. }));
        assert_eq!(ray[0], start);
        assert_eq!(ray[steps], end);
    }
}
