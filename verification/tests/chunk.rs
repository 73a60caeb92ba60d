use game::chunk::{Chunk, BASE_COUNT, BASE_SIZE, CLIFF, TILE_COUNT, WATER};
use game::chunk_manager::{chunk_key, chunk_within_radius, ChunkManager};
use game::sprite_ids::{get_sprite_uv, CLIFF_B, CLIFF_BL, CLIFF_BR, CLIFF_TL, CLIFF_TR, GRASS, WATER_BR, WATER_C, WATER_DR};

fn chunk_at(x: i32, y: i32) -> Chunk {
    Chunk { chunk_x: x, chunk_y: y, base_layer: [0; BASE_COUNT], tile_layer: [0; TILE_COUNT] }
}

#[test]
fn sprite_uv() {
    assert_eq!(get_sprite_uv(52), (2, 5));
    assert_eq!(get_sprite_uv(0), (0, 0));
    assert_eq!(get_sprite_uv(GRASS), (1, 1));
}

#[test]
fn water_masks() {
    let mut c = chunk_at(0, 0);
    c.tile_water(0, 0);
    assert_eq!(c.tile_layer[0], GRASS);
    c.base_layer[0] = WATER;
    c.tile_water(0, 0);
    assert_eq!(c.tile_layer[0], WATER_BR);
    let v = BASE_SIZE + 1;
    for i in [v, v + 1, v + BASE_SIZE, v + BASE_SIZE + 1] {
        c.base_layer[i] = WATER;
    }
    c.tile_water(1, 1);
    assert_eq!(c.tile_layer[32 + 1], WATER_C);
    let mut c = chunk_at(0, 0);
    c.base_layer[1] = WATER;
    c.base_layer[BASE_SIZE] = WATER;
    c.tile_water(0, 0);
    assert_eq!(c.tile_layer[0], WATER_DR);
}

#[test]
fn cliff_masks() {
    let mut c = chunk_at(0, 0);
    c.base_layer[0] = CLIFF;
    c.base_layer[1] = CLIFF;
    c.tile_cliff(0, 0);
    assert_eq!(c.tile_layer[0], CLIFF_B);
    for i in [0, 1, BASE_SIZE, BASE_SIZE + 1] {
        c.base_layer[i] = CLIFF;
    }
    c.tile_cliff(0, 0);
    assert_eq!(c.tile_layer[0], GRASS);
}

#[test]
fn autotile_keeps_cliff_sprites() {
    let mut c = chunk_at(3, -2);
    c.base_layer[0] = WATER;
    c.base_layer[BASE_SIZE * 5 + 7] = CLIFF;
    c.autotile();
    assert_eq!(c.tile_layer[0], GRASS);
    assert_eq!(c.tile_layer[4 * 32 + 6], CLIFF_TL);
    assert_eq!(c.tile_layer[4 * 32 + 7], CLIFF_TR);
    assert_eq!(c.tile_layer[5 * 32 + 6], CLIFF_BL);
    assert_eq!(c.tile_layer[5 * 32 + 7], CLIFF_BR);
    assert_eq!(c.tile_layer[31 * 32 + 31], GRASS);
    assert_eq!((c.chunk_x, c.chunk_y), (3, -2));
}

#[test]
fn chunks_are_requested_once() {
    let mut m = ChunkManager::new(7);
    assert_eq!(m.world_seed, 7);
    assert!(m.request_chunk(0, 0));
    assert!(!m.request_chunk(0, 0));
    assert!(m.request_chunk(1, 0));
    m.process_incoming_chunks(vec![chunk_at(0, 0)]);
    assert_eq!(m.loaded_chunks.len(), 1);
    assert!(!m.request_chunk(0, 0));
    assert!(!m.request_chunk(1, 0));
}

#[test]
fn incoming_chunks_replace_loaded_ones() {
    let mut m = ChunkManager::new(1);
    let mut first = chunk_at(2, 2);
    first.tile_layer[0] = 5;
    let mut second = chunk_at(2, 2);
    second.tile_layer[0] = 9;
    m.process_incoming_chunks(vec![first, chunk_at(4, 4), second]);
    assert_eq!(m.loaded_chunks.len(), 2);
    let c = m.loaded_chunks.get(&chunk_key(2, 2)).unwrap();
    assert_eq!((c.chunk_x, c.chunk_y), (2, 2));
    assert_eq!(c.tile_layer[0], 9);
}

#[test]
fn cleanup_unloads_distant_chunks() {
    let mut m = ChunkManager::new(1);
    m.process_incoming_chunks(vec![chunk_at(0, 0), chunk_at(2, -1), chunk_at(-3, 0), chunk_at(1, 5)]);
    m.cleanup_distant_chunks(0, 0, 2);
    let mut keys: Vec<(i32, i32)> = m.loaded_chunks.values().map(|c| (c.chunk_x, c.chunk_y)).collect();
    keys.sort();
    assert_eq!(keys, vec![(0, 0), (2, -1)]);
    assert!(m.loaded_chunks.contains_key(&chunk_key(2, -1)));
    assert!(m.request_chunk(-3, 0));
    m.cleanup_distant_chunks(10, 10, 0);
    assert!(m.loaded_chunks.is_empty());
}

#[test]
fn chunk_keys_pack_both_offsets() {
    assert_eq!(chunk_key(0, 0), 0x8000_0000_8000_0000);
    assert_eq!(chunk_key(i32::MIN, i32::MIN), 0);
    assert_eq!(chunk_key(i32::MAX, i32::MAX), u64::MAX);
    assert_eq!(chunk_key(-1, 2), 0x7fff_ffff_8000_0002);
    assert_ne!(chunk_key(1, 2), chunk_key(2, 1));
}

#[test]
fn radius_check_without_overflow() {
    assert!(chunk_within_radius(&chunk_at(2, -2), 0, 0, 2));
    assert!(!chunk_within_radius(&chunk_at(3, 0), 0, 0, 2));
    assert!(!chunk_within_radius(&chunk_at(i32::MIN, 0), i32::MAX, 0, 5));
}

#[test]
fn generation_ends_when_the_chunk_arrives() {
    let mut m = ChunkManager::new(3);
    assert!(m.request_chunk(5, 5));
    assert!(m.generating.contains_key(&chunk_key(5, 5)));
    m.process_incoming_chunks(vec![chunk_at(5, 5)]);
    assert!(m.generating.is_empty());
    assert!(m.loaded_chunks.contains_key(&chunk_key(5, 5)));
}
