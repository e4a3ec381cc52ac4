use beta_server::entity::{
    apply_movement, player_movement, Inventory, InventoryArea, Item, Look, Movement, Position,
    PreviousPosition, VisibilityChange, PlayerEntityDB,
};
use beta_server::event::{Face, PlayerPositionAndLookEvent};
use beta_server::packet::{serialize, PacketError};
use beta_server::to_client;

fn at(x: f64) -> Position {
    Position { x: x.to_bits(), y: 64f64.to_bits(), z: 0f64.to_bits(), stance: 65.62f64.to_bits(), on_ground: true }
}

fn start() -> Movement {
    let p = at(0.0);
    Movement {
        position: p,
        previous: PreviousPosition { x: p.x, y: p.y, z: p.z, stance: p.stance, on_ground: p.on_ground },
        look: Look { yaw: 0, pitch: 0 },
    }
}

#[test]
fn movement_keeps_the_previous_position() {
    let mut m = start();
    let before = m.position;
    let e = PlayerPositionAndLookEvent::Position {
        entity_id: 3,
        x: 1.5f64.to_bits(),
        y: 64f64.to_bits(),
        z: 1.5f64.to_bits(),
        stance: 65.62f64.to_bits(),
    };
    apply_movement(&mut m, 3, &e);
    assert_eq!(m.previous.x, before.x);
    assert_eq!(m.previous.z, before.z);
    assert_eq!(f64::from_bits(m.position.x), 1.5);
    assert!(m.position.on_ground);
    // Another player's event changes nothing.
    let mut n = start();
    apply_movement(&mut n, 4, &e);
    assert_eq!(n, start());
}

#[test]
fn look_events_change_the_look_only() {
    let mut m = start();
    let e = PlayerPositionAndLookEvent::Look { entity_id: 1, yaw: 90f32.to_bits(), pitch: 10f32.to_bits() };
    player_movement(&mut m, 1, &vec![e]);
    assert_eq!(m.position, start().position);
    assert_eq!(m.previous, start().previous);
    assert_eq!(f32::from_bits(m.look.yaw), 90.0);
}

#[test]
fn several_moves_in_one_tick() {
    let mut m = start();
    let mv = |x: f64| PlayerPositionAndLookEvent::PositionAndLook {
        entity_id: 1,
        x: x.to_bits(),
        y: 64f64.to_bits(),
        z: 0f64.to_bits(),
        stance: 65.62f64.to_bits(),
        yaw: 0,
        pitch: 0,
    };
    player_movement(&mut m, 1, &vec![mv(1.0), mv(2.0)]);
    assert_eq!(f64::from_bits(m.previous.x), 1.0);
    assert_eq!(f64::from_bits(m.position.x), 2.0);
}

#[test]
fn new_inventory() {
    let inv = Inventory::new();
    assert_eq!(inv.main.items.len(), 36);
    assert_eq!(inv.main.items[0], Some(Item { id: 1, count: 64, uses_left: 0 }));
    assert_eq!(inv.armor.items, vec![None; 4]);
    assert_eq!(InventoryArea::<3>::new().items, vec![None; 3]);
    assert_eq!(InventoryArea::<0>::create_with_data().items.len(), 0);
}

#[test]
fn inventory_packets() {
    let inv = Inventory::new();
    let p = inv.to_raw_packet(-2).unwrap();
    assert_eq!(
        serialize(&p),
        Ok(vec![0x05, 0xFF, 0xFF, 0xFF, 0xFE, 0, 4, 0xFF, 0xFF, 0xFF, 0xFF, 0xFF, 0xFF, 0xFF, 0xFF])
    );
    assert!(matches!(inv.to_raw_packet(-4), Err(PacketError::InvalidInput(_))));
}

#[test]
fn inventory_update_from_client() {
    let mut inv = Inventory::new();
    let p = to_client::player_inventory(-3, vec![None, Some(Item { id: 5, count: 2, uses_left: 9 })]);
    inv.update_from_raw(&p);
    assert_eq!(inv.crafting.items[0], None);
    assert_eq!(inv.crafting.items[1], Some(Item { id: 5, count: 2, uses_left: 9 }));
    // More items than slots: only as many as fit are taken.
    let big = to_client::player_inventory(-2, vec![Some(Item { id: 7, count: 1, uses_left: 0 }); 10]);
    inv.update_from_raw(&big);
    assert_eq!(inv.armor.items, vec![Some(Item { id: 7, count: 1, uses_left: 0 }); 4]);
    // An unknown inventory changes nothing.
    let other = to_client::player_inventory(-9, vec![None]);
    inv.update_from_raw(&other);
    assert_eq!(inv.main.items[0], Some(Item { id: 1, count: 64, uses_left: 0 }));
}

#[test]
fn faces_from_bytes() {
    assert_eq!(Face::from(1u8), Face::Top);
    assert_eq!(Face::from(5u8), Face::Right);
    assert_eq!(Face::from(6u8), Face::Unknown);
}

#[test]
fn visible_list_updates() {
    let mut db = PlayerEntityDB::new();
    assert_eq!(db.update(4, true), VisibilityChange::Appeared);
    assert_eq!(db.update(5, true), VisibilityChange::Appeared);
    assert_eq!(db.update(6, true), VisibilityChange::Appeared);
    assert_eq!(db.update(5, true), VisibilityChange::Unchanged);
    assert_eq!(db.update(4, false), VisibilityChange::Vanished);
    assert_eq!(db.visible_entities, vec![6, 5]);
    assert!(db.forget(6));
    assert!(!db.forget(6));
    assert_eq!(db.visible_entities, vec![5]);
}
