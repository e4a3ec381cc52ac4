use beta_server::event::{Face, PlayerDiggingEvent, PlayerPositionAndLookEvent};
use beta_server::packet::serialize;
use beta_server::session::{
    decode_inbound, left_message, login_step, unhandled_packet_reason, InboundEvent, LoginStatus,
};

fn login_request(name: &str) -> Vec<u8> {
    let mut b = vec![0x01, 0, 0, 0, 14, 0, name.len() as u8];
    b.extend_from_slice(name.as_bytes());
    b.extend_from_slice(&[0, 0, 0, 0, 0, 0, 0, 0, 0, 0, 0]);
    b
}

#[test]
fn handshake_is_answered() {
    let b = [0x02, 0x00, 0x04, b'n', b'a', b'm', b'e'];
    let step = login_step(&b, 7, 42);
    assert_eq!(step.consumed, 7);
    assert!(matches!(step.status, LoginStatus::Pending));
    assert_eq!(step.replies.len(), 1);
    assert_eq!(serialize(&step.replies[0]), Ok(vec![0x02, 0x00, 0x01, b'-']));
}

#[test]
fn login_request_is_answered_with_entity_and_seed() {
    let b = login_request("name");
    let step = login_step(&b, 7, 0x0102030405060708);
    assert_eq!(step.consumed, b.len());
    assert!(matches!(&step.status, LoginStatus::LoggedIn(n) if n == "name"));
    assert_eq!(
        serialize(&step.replies[0]),
        Ok(vec![0x01, 0, 0, 0, 7, 0, 0, 0, 0, 1, 2, 3, 4, 5, 6, 7, 8, 0])
    );
}

#[test]
fn login_in_one_read_and_in_pieces() {
    let mut b = vec![0x00, 0x02, 0x00, 0x01, b'a'];
    b.extend(login_request("a"));
    let whole = login_step(&b, 1, 5);
    assert_eq!(whole.replies.len(), 3);
    assert_eq!(whole.consumed, b.len());
    let part = login_step(&b[..8], 1, 5);
    assert_eq!(part.replies.len(), 2);
    assert_eq!(part.consumed, 5);
    assert!(matches!(part.status, LoginStatus::Pending));
}

#[test]
fn other_packets_reject_the_login() {
    let step = login_step(&[0x00, 0x03, 0x00, 0x00], 1, 5);
    assert_eq!(step.consumed, 1);
    assert!(matches!(step.status, LoginStatus::Rejected(3)));
}

#[test]
fn leftover_bytes_wait_for_the_rest() {
    let chat = [0x03, 0x00, 0x08, b'h', b'e', b'l', b'l', b'o', b'!', b'!', b'!'];
    assert_eq!(chat.len(), 11);
    let name = "steve".to_string();
    let first = decode_inbound(&chat[..7], 4, &name);
    assert_eq!(first.consumed, 0);
    assert!(first.events.is_empty());
    let second = decode_inbound(&chat, 4, &name);
    assert_eq!(second.consumed, 11);
    assert_eq!(second.events.len(), 1);
    match &second.events[0] {
        InboundEvent::Chat(c) => {
            assert_eq!(c.from, "steve");
            assert_eq!(c.message, "hello!!!");
        }
        _ => panic!("chat expected"),
    }
}

#[test]
fn playing_packets_become_events() {
    let mut b = vec![0x00, 0x0A, 0x01];
    b.extend_from_slice(&[0x0C, 0x3F, 0xC0, 0, 0, 0x40, 0, 0, 0, 0x01]);
    b.extend_from_slice(&[0x0E, 0x00, 0, 0, 0, 10, 60, 0xFF, 0xFF, 0xFF, 0xFD, 0x01]);
    b.extend_from_slice(&[0x0E, 0x03, 0, 0, 0, 10, 60, 0xFF, 0xFF, 0xFF, 0xFD, 0x01]);
    b.extend_from_slice(&[0x0E, 0x09, 0, 0, 0, 0, 0, 0, 0, 0, 0, 0]);
    b.extend_from_slice(&[0xFF, 0x00, 0x03, b'b', b'y', b'e']);
    let step = decode_inbound(&b, 2, &"a".to_string());
    assert_eq!(step.consumed, b.len());
    assert_eq!(step.rejected, None);
    assert_eq!(step.events.len(), 4);
    assert!(matches!(
        step.events[0],
        InboundEvent::Movement(PlayerPositionAndLookEvent::Look { entity_id: 2, yaw: 0x3FC00000, pitch: 0x40000000 })
    ));
    assert!(matches!(
        step.events[1],
        InboundEvent::Digging(PlayerDiggingEvent::Started { entity: 2, x: 10, y: 60, z: -3, face: Face::Top })
    ));
    assert!(matches!(step.events[2], InboundEvent::Digging(PlayerDiggingEvent::Completed { entity: 2 })));
    assert!(matches!(&step.events[3], InboundEvent::Left(r) if r == "bye"));
}

#[test]
fn position_packet_fields_in_order() {
    let mut b = vec![0x0B];
    for v in [1.0f64, 64.0, 65.62, -2.5] {
        b.extend_from_slice(&v.to_bits().to_be_bytes());
    }
    b.push(1);
    let step = decode_inbound(&b, 9, &"a".to_string());
    assert!(matches!(
        step.events[0],
        InboundEvent::Movement(PlayerPositionAndLookEvent::Position { entity_id: 9, x, y, stance, z })
            if f64::from_bits(x) == 1.0 && f64::from_bits(y) == 64.0
                && f64::from_bits(stance) == 65.62 && f64::from_bits(z) == -2.5
    ));
}

#[test]
fn a_packet_a_client_may_not_send_stops_the_reading() {
    let b = [0x00, 0x32, 0, 0, 0, 0, 0, 0, 0, 0, 1];
    let step = decode_inbound(&b, 1, &"a".to_string());
    assert_eq!(step.consumed, 1);
    assert_eq!(step.rejected, Some(0x32));
    assert_eq!(unhandled_packet_reason(0x32), "You sent a packet with id: 50, which isn't handled just yet!");
}

#[test]
fn goodbye_message() {
    assert_eq!(left_message(&"a".to_string(), &"bye".to_string()), "a left the world [bye]");
}
