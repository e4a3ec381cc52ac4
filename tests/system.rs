use beta_server::entity::{Digging, PlayerChunkDB, PlayerEntityDB, Position};
use beta_server::event::{BlockChangeEvent, Face, PlayerDiggingEvent, SendPacketEvent};
use beta_server::packet::serialize;
use beta_server::system::{
    calculate_visible_players, chat_line, chunk_packets, chunks_to_load, chunks_to_unload,
    digging, initializing_packets, movement_packet, outbound_order, player_chunk, spawn_chunk, teleport_packet,
    LoadedChunk, PlayerSnapshot,
};
use beta_server::to_client;

fn ev(entity: u32, ord: usize, tag: u8) -> SendPacketEvent {
    SendPacketEvent { entity, ord, bytes: vec![tag] }
}

#[test]
fn outbound_packets_go_by_order_then_publishing() {
    let events = vec![ev(1, 5, 0), ev(2, 2, 1), ev(1, 2, 2), ev(1, 1, 3), ev(1, 5, 4), ev(1, 2, 5)];
    let order = outbound_order(&events, 1);
    let tags: Vec<u8> = order.iter().map(|&i| events[i].bytes[0]).collect();
    assert_eq!(tags, vec![3, 2, 5, 0, 4]);
    assert_eq!(outbound_order(&events, 2), vec![1]);
    assert!(outbound_order(&events, 3).is_empty());
}

#[test]
fn send_event_serializes() {
    let e = SendPacketEvent::with_ord(4, 1, &to_client::pre_chunk(0, 0, false)).unwrap();
    assert_eq!(e.ord, 1);
    assert_eq!(e.bytes, vec![0x32, 0, 0, 0, 0, 0, 0, 0, 0, 0]);
    assert_eq!(SendPacketEvent::new(4, &to_client::keep_alive()).unwrap().ord, 5);
}

fn snapshot(id: u32, x: i32, z: i32) -> PlayerSnapshot {
    PlayerSnapshot {
        entity_id: id,
        name: format!("p{id}"),
        block_x: x,
        block_z: z,
        fixed_x: x * 32,
        fixed_y: 64 * 32,
        fixed_z: z * 32,
        yaw: 0,
        pitch: 0,
    }
}

#[test]
fn players_appear_and_vanish() {
    let mut chunks = PlayerChunkDB::new();
    chunks.insert(0, 0);
    let mut view = PlayerEntityDB::new();
    let others = vec![snapshot(1, 3, 3), snapshot(2, 40, 3), snapshot(3, 5, 5)];
    let out = calculate_visible_players(1, &chunks, &mut view, &others);
    assert_eq!(view.visible_entities, vec![3]);
    assert_eq!(out.len(), 2);
    assert_eq!(out[0].id, 0x1E);
    assert_eq!(out[1].id, 0x14);
    // Nothing changed: nothing is sent.
    assert!(calculate_visible_players(1, &chunks, &mut view, &others).is_empty());
    // Player 3 walks away.
    let moved = vec![snapshot(3, 50, 5)];
    let out = calculate_visible_players(1, &chunks, &mut view, &moved);
    assert!(view.visible_entities.is_empty());
    assert_eq!(serialize(&out[0]), Ok(vec![0x1D, 0, 0, 0, 3]));
}

#[test]
fn small_moves_are_relative_and_large_ones_teleport() {
    let o = snapshot(5, 1, 1);
    let rel = movement_packet(&o, 48, 0, -48);
    assert_eq!(serialize(&rel), Ok(vec![0x21, 0, 0, 0, 5, 48, 0, 0xD0, 0, 0]));
    let far = movement_packet(&o, 128, 0, 0);
    assert_eq!(serialize(&far), serialize(&teleport_packet(&o)));
    assert_eq!(far.id, 0x22);
    assert_eq!(movement_packet(&o, 0, -128, 127).id, 0x21);
    assert_eq!(movement_packet(&o, 0, -129, 0).id, 0x22);
}

#[test]
fn dig_start_then_complete_breaks_the_block() {
    let start = PlayerDiggingEvent::Started { entity: 1, x: 10, y: 60, z: -3, face: Face::Top };
    let s = digging(None, &start);
    assert_eq!(s.digging, Some(Digging { x: 10, y: 60, z: -3, face: Face::Top }));
    assert_eq!(s.block_change, None);
    let done = digging(s.digging, &PlayerDiggingEvent::Completed { entity: 1 });
    assert_eq!(done.digging, None);
    assert_eq!(done.block_change, Some(BlockChangeEvent { x: 10, y: 60, z: -3, ty: 0, metadata: 0 }));
    let stopped = digging(s.digging, &PlayerDiggingEvent::Stopped { entity: 1 });
    assert_eq!(stopped.digging, None);
    assert_eq!(stopped.block_change, None);
    assert_eq!(digging(s.digging, &PlayerDiggingEvent::InProgress { entity: 1 }).digging, s.digging);
    assert_eq!(digging(None, &PlayerDiggingEvent::Completed { entity: 1 }).block_change, None);
}

#[test]
fn chunks_around_the_spawn() {
    assert_eq!(spawn_chunk([0, 64, 0]), (0, 0));
    assert_eq!(spawn_chunk([-20, 64, 33]), (-2, 2));
    assert_eq!(spawn_chunk([-3, 64, -16]), (-1, -1));
    let empty = PlayerChunkDB::new();
    let load = chunks_to_load(0, 0, 2, &empty);
    assert_eq!(load.len(), 25);
    for x in -2..=2 {
        for z in -2..=2 {
            assert!(load.contains(&(x, z)));
        }
    }
}

#[test]
fn loading_and_unloading_around_a_player() {
    assert_eq!(player_chunk(-1, 17), (-1, 1));
    let mut db = PlayerChunkDB::new();
    db.insert(0, 0);
    db.insert(20, 0);
    let load = chunks_to_load(0, 0, 1, &db);
    assert_eq!(load.len(), 8);
    assert!(!load.contains(&(0, 0)));
    assert_eq!(chunks_to_unload(0, 0, 8, &db), vec![(20, 0)]);
    assert!(db.remove(20, 0));
    assert!(!db.remove(20, 0));
    assert!(db.contains(0, 0));
}

#[test]
fn chunk_packets_in_blocks() {
    let (pre, map) = chunk_packets(2, -1, vec![1, 2, 3]);
    assert_eq!(serialize(&pre), Ok(vec![0x32, 0, 0, 0, 2, 0xFF, 0xFF, 0xFF, 0xFF, 1]));
    assert_eq!(
        serialize(&map),
        Ok(vec![0x33, 0, 0, 0, 32, 0, 0, 0xFF, 0xFF, 0xFF, 0xF0, 15, 127, 15, 0, 0, 0, 3, 1, 2, 3])
    );
}

#[test]
fn chat_lines() {
    assert_eq!(chat_line(&"steve".to_string(), &"hi".to_string()), "<steve> hi");
}

#[test]
fn entering_the_world() {
    let loaded = vec![
        LoadedChunk { x: 0, z: 0, compressed: vec![1] },
        LoadedChunk { x: 1, z: -1, compressed: vec![2, 3] },
    ];
    let position = Position {
        x: 0f64.to_bits(),
        y: 64f64.to_bits(),
        z: 0f64.to_bits(),
        stance: 65.65f64.to_bits(),
        on_ground: false,
    };
    let packets = initializing_packets(&loaded, [0, 64, 0], &position);
    let ids: Vec<u8> = packets.iter().map(|p| p.id).collect();
    assert_eq!(ids, vec![0x32, 0x33, 0x32, 0x33, 0x06, 0x0D]);
    assert_eq!(serialize(&packets[4]), Ok(vec![0x06, 0, 0, 0, 0, 0, 0, 0, 64, 0, 0, 0, 0]));
    let mut look = vec![0x0D];
    for v in [0f64, 65.65, 64.0, 0.0] {
        look.extend_from_slice(&v.to_bits().to_be_bytes());
    }
    look.extend_from_slice(&[0, 0, 0, 0, 0, 0, 0, 0, 0]);
    assert_eq!(serialize(&packets[5]), Ok(look));
    assert_eq!(
        serialize(&packets[3]),
        Ok(vec![0x33, 0, 0, 0, 16, 0, 0, 0xFF, 0xFF, 0xFF, 0xF0, 15, 127, 15, 0, 0, 0, 2, 2, 3])
    );
}

#[test]
fn a_player_west_of_the_origin_is_seen_from_its_chunk() {
    let mut chunks = PlayerChunkDB::new();
    chunks.insert(-1, 0);
    assert!(chunks.sees(-3, 5));
    assert!(!chunks.sees(3, 5));
    let mut view = PlayerEntityDB::new();
    let out = calculate_visible_players(1, &chunks, &mut view, &vec![snapshot(2, -3, 5)]);
    assert_eq!(view.visible_entities, vec![2]);
    assert_eq!(out.len(), 2);
}
