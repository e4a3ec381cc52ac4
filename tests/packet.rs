use beta_server::entity::Item;
use beta_server::packet::{deserialize, serialize, Field, Packet, PacketError};
use beta_server::to_client;

fn read_all(b: &[u8]) -> (Result<Packet, PacketError>, usize) {
    let mut pos = 0usize;
    let r = deserialize(b, &mut pos);
    (r, pos)
}

fn samples() -> Vec<Vec<u8>> {
    vec![
        vec![0x00],
        vec![0x02, 0x00, 0x04, b'n', b'a', b'm', b'e'],
        vec![
            0x01, 0, 0, 0, 14, 0, 4, b'n', b'a', b'm', b'e', 0, 0, 1, 2, 3, 4, 5, 6, 7, 8, 0,
        ],
        vec![0x03, 0x00, 0x02, b'h', b'i'],
        vec![0x05, 0xFF, 0xFF, 0xFF, 0xFF, 0x00, 0x02, 0xFF, 0xFF, 0x00, 0x01, 0x40, 0x00, 0x00],
        vec![0x0A, 0x01],
        vec![0x0C, 0x3F, 0xC0, 0, 0, 0x40, 0, 0, 0, 0x01],
        vec![0x0E, 0x00, 0, 0, 0, 10, 60, 0xFF, 0xFF, 0xFF, 0xFD, 0x01],
        vec![0x12, 0, 0, 0, 5, 1],
        vec![0x33, 0, 0, 0, 16, 0, 0, 0, 0, 0, 32, 15, 127, 15, 0, 0, 0, 3, 9, 8, 7],
        vec![0xFF, 0x00, 0x03, b'b', b'y', b'e'],
    ]
}

#[test]
fn complete_packets_write_back_to_their_bytes() {
    for b in samples() {
        let (r, pos) = read_all(&b);
        let p = r.expect("a complete packet");
        assert_eq!(pos, b.len());
        assert_eq!(serialize(&p), Ok(b.clone()));
    }
}

#[test]
fn every_strict_prefix_is_incomplete() {
    for b in samples() {
        for k in 0..b.len() {
            let (r, pos) = read_all(&b[..k]);
            assert!(matches!(r, Err(PacketError::NotEnoughBytes)), "prefix {k} of {b:?}");
            assert_eq!(pos, 0);
        }
    }
}

#[test]
fn handshake_packet_fields() {
    let (r, _) = read_all(&[0x02, 0x00, 0x04, b'n', b'a', b'm', b'e']);
    let p = r.unwrap();
    assert_eq!(p.id, 0x02);
    assert!(matches!(&p.fields[..], [Field::Text(t)] if t == b"name"));
}

#[test]
fn inventory_slots_are_read() {
    let (r, _) = read_all(&samples()[4]);
    let p = r.unwrap();
    match &p.fields[1] {
        Field::Slots(s) => {
            assert_eq!(s.len(), 2);
            assert_eq!(s[0], None);
            assert_eq!(s[1], Some(Item { id: 1, count: 64, uses_left: 0 }));
        }
        _ => panic!("slots expected"),
    }
}

#[test]
fn unknown_id_is_reported() {
    let (r, pos) = read_all(&[0x99, 1, 2]);
    assert_eq!(r.unwrap_err(), PacketError::InvalidPacketID(0x99));
    assert_eq!(pos, 0);
}

#[test]
fn negative_blob_length_is_invalid() {
    let b = [0x33, 0, 0, 0, 16, 0, 0, 0, 0, 0, 32, 15, 127, 15, 0xFF, 0xFF, 0xFF, 0xFF];
    let (r, pos) = read_all(&b);
    assert!(matches!(r, Err(PacketError::InvalidInput(_))));
    assert_eq!(pos, 0);
}

#[test]
fn packets_read_one_after_another() {
    let mut b = vec![0x00, 0x0A, 0x00];
    b.extend_from_slice(&[0x03, 0x00]);
    let mut pos = 0usize;
    assert_eq!(deserialize(&b, &mut pos).unwrap().id, 0x00);
    assert_eq!(deserialize(&b, &mut pos).unwrap().id, 0x0A);
    assert_eq!(pos, 3);
    assert_eq!(deserialize(&b, &mut pos).unwrap_err(), PacketError::NotEnoughBytes);
    assert_eq!(pos, 3);
}

#[test]
fn a_packet_off_its_layout_is_not_written() {
    let p = Packet { id: 0x32, fields: vec![Field::Int(1)] };
    assert!(matches!(serialize(&p), Err(PacketError::InvalidInput(_))));
    let long = Packet { id: 0x03, fields: vec![Field::Text(vec![b'a'; 70000])] };
    assert!(matches!(serialize(&long), Err(PacketError::InvalidInput(_))));
    let empty_id = Packet {
        id: 0x05,
        fields: vec![
            Field::Int(0),
            Field::Slots(vec![Some(Item { id: 0xFFFF, count: 1, uses_left: 0 })]),
        ],
    };
    assert!(matches!(serialize(&empty_id), Err(PacketError::InvalidInput(_))));
}

#[test]
fn server_packets_bytes() {
    assert_eq!(
        serialize(&to_client::pre_chunk(1, -1, true)),
        Ok(vec![0x32, 0, 0, 0, 1, 0xFF, 0xFF, 0xFF, 0xFF, 1])
    );
    assert_eq!(
        serialize(&to_client::handshake(&"-".to_string())),
        Ok(vec![0x02, 0x00, 0x01, b'-'])
    );
    assert_eq!(
        serialize(&to_client::login(7, 0x0102030405060708, 0)),
        Ok(vec![0x01, 0, 0, 0, 7, 0, 0, 0, 0, 1, 2, 3, 4, 5, 6, 7, 8, 0])
    );
    assert_eq!(
        serialize(&to_client::block_change(10, 60, -3, 0, 0)),
        Ok(vec![0x35, 0, 0, 0, 10, 60, 0xFF, 0xFF, 0xFF, 0xFD, 0, 0])
    );
    assert_eq!(
        serialize(&to_client::time_update(6000)),
        Ok(vec![0x04, 0, 0, 0, 0, 0, 0, 0x17, 0x70])
    );
    assert_eq!(
        serialize(&to_client::map_chunk(16, 0, -32, 15, 127, 15, vec![9, 8])),
        Ok(vec![0x33, 0, 0, 0, 16, 0, 0, 0xFF, 0xFF, 0xFF, 0xE0, 15, 127, 15, 0, 0, 0, 2, 9, 8])
    );
    assert_eq!(
        serialize(&to_client::named_entity_spawn(3, &"ab".to_string(), 32, 64, -32, 1, -1, 0)),
        Ok(vec![
            0x14, 0, 0, 0, 3, 0, 2, b'a', b'b', 0, 0, 0, 32, 0, 0, 0, 64, 0xFF, 0xFF, 0xFF, 0xE0,
            1, 0xFF, 0, 0
        ])
    );
    assert_eq!(serialize(&to_client::keep_alive()), Ok(vec![0x00]));
    assert_eq!(
        serialize(&to_client::kick(&"é".to_string())),
        Ok(vec![0xFF, 0x00, 0x02, 0xC3, 0xA9])
    );
}
