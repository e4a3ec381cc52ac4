use beta_server::world::{chunk_file_parts, Chunk, ChunkError, ChunkRecord, World};

fn record() -> ChunkRecord {
    let mut blocks = vec![0u8; 32768];
    blocks[5] = 7;
    ChunkRecord {
        terrain_populated: 3,
        last_update: -5,
        blocks,
        data: vec![1u8; 16384],
        block_light: vec![2u8; 16384],
        sky_light: vec![3u8; 16384],
        height_map: vec![4u8; 256],
    }
}

#[test]
fn set_then_get_block() {
    let mut c = Chunk::from_record(0, 0, record()).unwrap();
    assert_eq!(c.get_block(0, 5, 0), Some(7));
    assert_eq!(c.set_block(0, 5, 0, 9), Some(7));
    assert_eq!(c.get_block(0, 5, 0), Some(9));
    assert_eq!(c.set_block(15, 127, 15, 1), Some(0));
    assert_eq!(c.get_block(15, 127, 15), Some(1));
    assert_eq!(c.blocks[127 + 15 * 128 + 15 * 2048], 1);
}

#[test]
fn out_of_range_blocks_are_reported() {
    let mut c = Chunk::from_record(0, 0, record()).unwrap();
    assert_eq!(c.get_block(16, 0, 0), None);
    assert_eq!(c.set_block(200, 200, 200, 1), None);
}

#[test]
fn load_save_load_is_a_fixed_point() {
    let first = Chunk::from_record(4, -2, record()).unwrap();
    let saved = first.to_record();
    assert_eq!(saved.terrain_populated, 1);
    assert_eq!(saved.last_update, -5);
    let second = Chunk::from_record(4, -2, saved).unwrap();
    assert_eq!(second.terrain_populated, first.terrain_populated);
    assert_eq!(second.last_update, first.last_update);
    assert_eq!(second.blocks, first.blocks);
    assert_eq!(second.data, first.data);
    assert_eq!(second.block_light, first.block_light);
    assert_eq!(second.sky_light, first.sky_light);
    assert_eq!(second.height_map, first.height_map);
}

#[test]
fn wrong_array_length_is_refused() {
    let mut r = record();
    r.height_map.pop();
    assert!(matches!(Chunk::from_record(0, 0, r), Err(ChunkError::WrongArrayLength)));
}

#[test]
fn payload_concatenates_four_arrays() {
    let c = Chunk::from_record(0, 0, record()).unwrap();
    let p = c.payload();
    assert_eq!(p.len(), 32768 + 3 * 16384);
    assert_eq!(p[5], 7);
    assert_eq!(p[32768], 1);
    assert_eq!(p[32768 + 16384], 2);
    assert_eq!(p[32768 + 2 * 16384], 3);
}

#[test]
fn inside_chunk_rounds_toward_zero() {
    let c = Chunk::from_record(0, -1, record()).unwrap();
    assert!(c.is_inside_chunk(10, -16));
    assert!(c.is_inside_chunk(10, -3));
    assert!(c.is_inside_chunk(15, -1));
    assert!(!c.is_inside_chunk(10, 0));
    assert!(!c.is_inside_chunk(10, -17));
    let z = Chunk::from_record(0, 0, record()).unwrap();
    assert!(!z.is_inside_chunk(-15, 15));
    assert!(z.is_inside_chunk(0, 15));
}

#[test]
fn set_time_wraps_at_a_day() {
    let mut w = World::new(1, [0, 64, 0], 50000, 0, 0);
    assert_eq!(w.get_time(), 2000);
    w.set_time(30000);
    assert_eq!(w.get_time(), 6000);
    w.set_time(23999);
    assert_eq!(w.get_time(), 23999);
    w.advance_time(20);
    assert_eq!(w.get_time(), 19);
    w.set_time(u64::MAX);
    assert_eq!(w.get_time(), u64::MAX % 24000);
}

#[test]
fn chunk_cache() {
    let mut w = World::new(42, [1, 2, 3], 0, 0, 0);
    assert_eq!(w.get_seed(), 42);
    assert_eq!(w.get_spawn(), [1, 2, 3]);
    assert!(matches!(w.get_chunk(0, -1), Err(ChunkError::NotLoaded)));
    w.insert_chunk(Chunk::from_record(0, -1, record()).unwrap());
    w.insert_chunk(Chunk::from_record(2, 2, record()).unwrap());
    assert_eq!(w.get_chunk(0, -1).unwrap().chunk_z, -1);
    assert_eq!(w.save_chunk(2, 2).unwrap().blocks[5], 7);
    assert!(matches!(w.save_chunk(9, 9), Err(ChunkError::NotLoaded)));
    let c = w.unload_chunk(2, 2).unwrap();
    assert_eq!(c.chunk_x, 2);
    assert!(matches!(w.unload_chunk(2, 2), Err(ChunkError::NotLoaded)));
    assert!(w.get_chunk(0, -1).is_ok());
}

#[test]
fn breaking_a_block() {
    let mut w = World::new(0, [0, 64, 0], 0, 0, 0);
    let mut r = record();
    let index = 60 + 13 * 128 + 10 * 2048;
    r.blocks[index] = 3;
    w.insert_chunk(Chunk::from_record(0, -1, r).unwrap());
    assert_eq!(w.break_block(10, 60, -3), Some(3));
    assert_eq!(w.get_chunk(0, -1).unwrap().get_block(10, 60, 13), Some(0));
    assert_eq!(w.break_block(100, 60, 100), None);
}

#[test]
fn chunk_file_names() {
    let (h, l, name) = chunk_file_parts(-13, 70);
    assert_eq!(h, "1f");
    assert_eq!(l, "6");
    assert_eq!(name, "c.-d.1y.dat");
    let (h, l, name) = chunk_file_parts(0, 0);
    assert_eq!((h.as_str(), l.as_str(), name.as_str()), ("0", "0", "c.0.0.dat"));
}
