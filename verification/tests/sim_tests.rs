use rtstest::{GameState, ResourceKind, Tile, TileMap, TilePos, FIXED_TICK_MS};

#[test]
fn harvest_increases_resource_pool() {
    let mut state = GameState::new(TileMap::new(8, 8));

    state.harvest(ResourceKind::Gold, 50);
    state.harvest(ResourceKind::Wood, 30);

    assert_eq!(state.resources.gold, 50);
    assert_eq!(state.resources.wood, 30);
}

#[test]
fn building_allowed_only_on_ground_tiles() {
    let mut map = TileMap::new(4, 4);
    map.set(TilePos { x: 1, y: 1 }, Tile::Blocked);
    map.set(TilePos { x: 2, y: 2 }, Tile::Forest);

    assert!(map.is_buildable(TilePos { x: 0, y: 0 }));
    assert!(!map.is_buildable(TilePos { x: 1, y: 1 }));
    assert!(!map.is_buildable(TilePos { x: 2, y: 2 }));
}

#[test]
fn tile_map_returns_what_was_set() {
    let mut map = TileMap::new(3, 2);
    assert_eq!(map.get(TilePos { x: 2, y: 1 }), Tile::Ground);
    map.set(TilePos { x: 2, y: 1 }, Tile::GoldMine);
    assert_eq!(map.get(TilePos { x: 2, y: 1 }), Tile::GoldMine);
    assert_eq!(map.get(TilePos { x: 1, y: 1 }), Tile::Ground);
}

#[test]
fn fixed_tick_simulation_is_deterministic() {
    let mut state = GameState::new(TileMap::new(2, 2));
    state.advance_time(10);
    assert_eq!(state.ticks, 0);
    state.advance_time(40);
    assert_eq!(state.ticks, 1);
    state.advance_time(150);
    assert_eq!(state.ticks, 4);
}

#[test]
fn tick_count_is_independent_of_chunking() {
    let chunkings: [&[u64]; 4] = [
        &[200],
        &[10, 40, 150],
        &[49, 1, 49, 1, 100],
        &[1; 200],
    ];
    for deltas in chunkings {
        let mut state = GameState::new(TileMap::new(1, 1));
        let mut total: u64 = 0;
        for &d in deltas {
            state.advance_time(d);
            total += d;
        }
        assert_eq!(total, 200);
        assert_eq!(state.ticks, 200 / FIXED_TICK_MS);
    }
}

#[test]
fn leftover_sub_tick_time_is_carried_forward() {
    let mut state = GameState::new(TileMap::new(1, 1));
    state.advance_time(49);
    assert_eq!(state.ticks, 0);
    assert_eq!(state.elapsed_ms, 49);
    state.advance_time(1);
    assert_eq!(state.ticks, 1);
    assert_eq!(state.elapsed_ms, 0);
    state.advance_time(124);
    assert_eq!(state.ticks, 3);
    assert_eq!(state.elapsed_ms, 24);
}
