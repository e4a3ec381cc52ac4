//! The packets that the server sends, built from their typed values.
use crate::entity::Item;
use crate::packet::{
    Field, FieldValue, Packet, PacketValue, ANIMATION, BLOCK_CHANGE, CHAT_MESSAGE,
    DESTROY_ENTITY, ENTITY, ENTITY_LOOK_RELATIVE_MOVE, ENTITY_TELEPORT, HANDSHAKE, KEEP_ALIVE,
    KICK_OR_DISCONNECT, LOGIN, MAP_CHUNK, NAMED_ENTITY_SPAWN, PLAYER_INVENTORY,
    PLAYER_POSITION_AND_LOOK, PRE_CHUNK, SPAWN_POSITION, TIME_UPDATE, field_values,
};
use vstd::prelude::*;

verus! {

/// The UTF-8 bytes of a string.
pub open spec fn utf8_of(s: Seq<char>) -> Seq<u8> {
    vstd::utf8::encode_utf8(s)
}

pub open spec fn entity_look_relative_move_value(
    entity_id: u32,
    dx: i8,
    dy: i8,
    dz: i8,
    yaw: i8,
    pitch: i8,
) -> PacketValue {
    PacketValue {
        id: ENTITY_LOOK_RELATIVE_MOVE,
        fields: seq![
            FieldValue::Int(entity_id),
            FieldValue::Byte(dx as u8),
            FieldValue::Byte(dy as u8),
            FieldValue::Byte(dz as u8),
            FieldValue::Byte(yaw as u8),
            FieldValue::Byte(pitch as u8),
        ],
    }
}

pub open spec fn entity_teleport_value(
    entity_id: u32,
    x: i32,
    y: i32,
    z: i32,
    yaw: i8,
    pitch: i8,
) -> PacketValue {
    PacketValue {
        id: ENTITY_TELEPORT,
        fields: seq![
            FieldValue::Int(entity_id),
            FieldValue::Int(x as u32),
            FieldValue::Int(y as u32),
            FieldValue::Int(z as u32),
            FieldValue::Byte(yaw as u8),
            FieldValue::Byte(pitch as u8),
        ],
    }
}

pub open spec fn pre_chunk_value(x: i32, z: i32, mode: bool) -> PacketValue {
    PacketValue {
        id: PRE_CHUNK,
        fields: seq![
            FieldValue::Int(x as u32),
            FieldValue::Int(z as u32),
            FieldValue::Byte(if mode { 1u8 } else { 0u8 }),
        ],
    }
}

pub open spec fn map_chunk_value(
    x: i32,
    y: i16,
    z: i32,
    size_x: i8,
    size_y: i8,
    size_z: i8,
    data: Seq<u8>,
) -> PacketValue {
    PacketValue {
        id: MAP_CHUNK,
        fields: seq![
            FieldValue::Int(x as u32),
            FieldValue::Short(y as u16),
            FieldValue::Int(z as u32),
            FieldValue::Byte(size_x as u8),
            FieldValue::Byte(size_y as u8),
            FieldValue::Byte(size_z as u8),
            FieldValue::Blob(data),
        ],
    }
}

pub open spec fn spawn_position_value(x: i32, y: i32, z: i32) -> PacketValue {
    PacketValue {
        id: SPAWN_POSITION,
        fields: seq![
            FieldValue::Int(x as u32),
            FieldValue::Int(y as u32),
            FieldValue::Int(z as u32),
        ],
    }
}

pub open spec fn position_look_value(
    x: u64,
    stance: u64,
    y: u64,
    z: u64,
    yaw: u32,
    pitch: u32,
    on_ground: bool,
) -> PacketValue {
    PacketValue {
        id: PLAYER_POSITION_AND_LOOK,
        fields: seq![
            FieldValue::Long(x),
            FieldValue::Long(stance),
            FieldValue::Long(y),
            FieldValue::Long(z),
            FieldValue::Int(yaw),
            FieldValue::Int(pitch),
            FieldValue::Byte(if on_ground { 1u8 } else { 0u8 }),
        ],
    }
}

fn text(s: &String) -> (f: Field)
    ensures
        f@ == FieldValue::Text(utf8_of(s@)),
{
    Field::Text(s.as_str().as_bytes_vec())
}

fn packet(id: u8, fields: Vec<Field>, Ghost(want): Ghost<Seq<FieldValue>>) -> (p: Packet)
    requires
        field_values(fields@) =~= want,
    ensures
        p@ == (PacketValue { id, fields: want }),
{
    Packet { id, fields }
}

pub fn keep_alive() -> (p: Packet)
    ensures
        p@ == (PacketValue { id: KEEP_ALIVE, fields: seq![] }),
{
    let ghost w = seq![];
    packet(KEEP_ALIVE, vec![], Ghost(w))
}

/// The server's handshake reply, with the connection hash.
pub fn handshake(connection_hash: &String) -> (p: Packet)
    ensures
        p@ == (PacketValue {
            id: HANDSHAKE,
            fields: seq![FieldValue::Text(utf8_of(connection_hash@))],
        }),
{
    let f = text(connection_hash);
    let ghost w = seq![f@];
    packet(HANDSHAKE, vec![f], Ghost(w))
}

/// The server's login reply: the player's entity id, two empty names, the map seed and the
/// dimension.
pub fn login(entity_id: u32, map_seed: i64, dimension: i8) -> (p: Packet)
    ensures
        p@ == (PacketValue {
            id: LOGIN,
            fields: seq![
                FieldValue::Int(entity_id),
                FieldValue::Text(seq![]),
                FieldValue::Text(seq![]),
                FieldValue::Long(map_seed as u64),
                FieldValue::Byte(dimension as u8),
            ],
        }),
{
    let a: Vec<u8> = Vec::new();
    let b: Vec<u8> = Vec::new();
    let fs = vec![
        Field::Int(entity_id),
        Field::Text(a),
        Field::Text(b),
        Field::Long(map_seed as u64),
        Field::Byte(dimension as u8),
    ];
    let ghost w = seq![
        FieldValue::Int(entity_id),
        FieldValue::Text(seq![]),
        FieldValue::Text(seq![]),
        FieldValue::Long(map_seed as u64),
        FieldValue::Byte(dimension as u8),
    ];
    proof {
        assert(fs@[1]@ == FieldValue::Text(seq![])) by {
            assert(a@ =~= seq![]);
        }
        assert(fs@[2]@ == FieldValue::Text(seq![])) by {
            assert(b@ =~= seq![]);
        }
    }
    packet(LOGIN, fs, Ghost(w))
}

pub fn chat_message(message: &String) -> (p: Packet)
    ensures
        p@ == (PacketValue {
            id: CHAT_MESSAGE,
            fields: seq![FieldValue::Text(utf8_of(message@))],
        }),
{
    let f = text(message);
    let ghost w = seq![f@];
    packet(CHAT_MESSAGE, vec![f], Ghost(w))
}

pub fn time_update(time: u64) -> (p: Packet)
    ensures
        p@ == (PacketValue { id: TIME_UPDATE, fields: seq![FieldValue::Long(time)] }),
{
    let ghost w = seq![FieldValue::Long(time)];
    packet(TIME_UPDATE, vec![Field::Long(time)], Ghost(w))
}

pub fn player_inventory(inventory_type: i32, items: Vec<Option<Item>>) -> (p: Packet)
    ensures
        p@ == (PacketValue {
            id: PLAYER_INVENTORY,
            fields: seq![FieldValue::Int(inventory_type as u32), FieldValue::Slots(items@)],
        }),
{
    let ghost w = seq![FieldValue::Int(inventory_type as u32), FieldValue::Slots(items@)];
    packet(PLAYER_INVENTORY, vec![Field::Int(inventory_type as u32), Field::Slots(items)], Ghost(w))
}

pub fn spawn_position(x: i32, y: i32, z: i32) -> (p: Packet)
    ensures
        p@ == spawn_position_value(x, y, z),
{
    let ghost w = seq![
        FieldValue::Int(x as u32),
        FieldValue::Int(y as u32),
        FieldValue::Int(z as u32),
    ];
    packet(
        SPAWN_POSITION,
        vec![Field::Int(x as u32), Field::Int(y as u32), Field::Int(z as u32)],
        Ghost(w),
    )
}

/// The server's position and look of the player; coordinates and angles are IEEE-754 bit
/// patterns, and the stance comes before `y`.
pub fn position_look(
    x: u64,
    stance: u64,
    y: u64,
    z: u64,
    yaw: u32,
    pitch: u32,
    on_ground: bool,
) -> (p: Packet)
    ensures
        p@ == position_look_value(x, stance, y, z, yaw, pitch, on_ground),
{
    let g: u8 = if on_ground {
        1
    } else {
        0
    };
    let ghost w = seq![
        FieldValue::Long(x),
        FieldValue::Long(stance),
        FieldValue::Long(y),
        FieldValue::Long(z),
        FieldValue::Int(yaw),
        FieldValue::Int(pitch),
        FieldValue::Byte(g),
    ];
    packet(
        PLAYER_POSITION_AND_LOOK,
        vec![
            Field::Long(x),
            Field::Long(stance),
            Field::Long(y),
            Field::Long(z),
            Field::Int(yaw),
            Field::Int(pitch),
            Field::Byte(g),
        ],
        Ghost(w),
    )
}

/// Another player appears: position in 1/32 blocks, angles packed in a byte.
pub fn named_entity_spawn(
    entity_id: u32,
    name: &String,
    x: i32,
    y: i32,
    z: i32,
    rotation: i8,
    pitch: i8,
    current_item: u16,
) -> (p: Packet)
    ensures
        p@ == (PacketValue {
            id: NAMED_ENTITY_SPAWN,
            fields: seq![
                FieldValue::Int(entity_id),
                FieldValue::Text(utf8_of(name@)),
                FieldValue::Int(x as u32),
                FieldValue::Int(y as u32),
                FieldValue::Int(z as u32),
                FieldValue::Byte(rotation as u8),
                FieldValue::Byte(pitch as u8),
                FieldValue::Short(current_item),
            ],
        }),
{
    let n = text(name);
    let ghost w = seq![
        FieldValue::Int(entity_id),
        n@,
        FieldValue::Int(x as u32),
        FieldValue::Int(y as u32),
        FieldValue::Int(z as u32),
        FieldValue::Byte(rotation as u8),
        FieldValue::Byte(pitch as u8),
        FieldValue::Short(current_item),
    ];
    packet(
        NAMED_ENTITY_SPAWN,
        vec![
            Field::Int(entity_id),
            n,
            Field::Int(x as u32),
            Field::Int(y as u32),
            Field::Int(z as u32),
            Field::Byte(rotation as u8),
            Field::Byte(pitch as u8),
            Field::Short(current_item),
        ],
        Ghost(w),
    )
}

pub fn destroy_entity(entity_id: u32) -> (p: Packet)
    ensures
        p@ == (PacketValue { id: DESTROY_ENTITY, fields: seq![FieldValue::Int(entity_id)] }),
{
    let ghost w = seq![FieldValue::Int(entity_id)];
    packet(DESTROY_ENTITY, vec![Field::Int(entity_id)], Ghost(w))
}

pub fn entity(entity_id: u32) -> (p: Packet)
    ensures
        p@ == (PacketValue { id: ENTITY, fields: seq![FieldValue::Int(entity_id)] }),
{
    let ghost w = seq![FieldValue::Int(entity_id)];
    packet(ENTITY, vec![Field::Int(entity_id)], Ghost(w))
}

/// Another player moved by less than four blocks on each axis: the move in 1/32 blocks.
pub fn entity_look_relative_move(entity_id: u32, dx: i8, dy: i8, dz: i8, yaw: i8, pitch: i8) -> (p:
    Packet)
    ensures
        p@ == entity_look_relative_move_value(entity_id, dx, dy, dz, yaw, pitch),
{
    let ghost w = seq![
        FieldValue::Int(entity_id),
        FieldValue::Byte(dx as u8),
        FieldValue::Byte(dy as u8),
        FieldValue::Byte(dz as u8),
        FieldValue::Byte(yaw as u8),
        FieldValue::Byte(pitch as u8),
    ];
    packet(
        ENTITY_LOOK_RELATIVE_MOVE,
        vec![
            Field::Int(entity_id),
            Field::Byte(dx as u8),
            Field::Byte(dy as u8),
            Field::Byte(dz as u8),
            Field::Byte(yaw as u8),
            Field::Byte(pitch as u8),
        ],
        Ghost(w),
    )
}

/// Another player stands at an absolute position, in 1/32 blocks.
pub fn entity_teleport(entity_id: u32, x: i32, y: i32, z: i32, yaw: i8, pitch: i8) -> (p: Packet)
    ensures
        p@ == entity_teleport_value(entity_id, x, y, z, yaw, pitch),
{
    let ghost w = seq![
        FieldValue::Int(entity_id),
        FieldValue::Int(x as u32),
        FieldValue::Int(y as u32),
        FieldValue::Int(z as u32),
        FieldValue::Byte(yaw as u8),
        FieldValue::Byte(pitch as u8),
    ];
    packet(
        ENTITY_TELEPORT,
        vec![
            Field::Int(entity_id),
            Field::Int(x as u32),
            Field::Int(y as u32),
            Field::Int(z as u32),
            Field::Byte(yaw as u8),
            Field::Byte(pitch as u8),
        ],
        Ghost(w),
    )
}

/// Tells the client to make room for a chunk (`mode`) or to drop it.
pub fn pre_chunk(x: i32, z: i32, mode: bool) -> (p: Packet)
    ensures
        p@ == pre_chunk_value(x, z, mode),
{
    let m: u8 = if mode {
        1
    } else {
        0
    };
    let ghost w = seq![FieldValue::Int(x as u32), FieldValue::Int(z as u32), FieldValue::Byte(m)];
    packet(PRE_CHUNK, vec![Field::Int(x as u32), Field::Int(z as u32), Field::Byte(m)], Ghost(w))
}

/// A region of blocks: its corner in blocks, its size less one on each axis, and the
/// compressed block data, whose length travels in front of it.
pub fn map_chunk(
    x: i32,
    y: i16,
    z: i32,
    size_x: i8,
    size_y: i8,
    size_z: i8,
    compressed_data: Vec<u8>,
) -> (p: Packet)
    ensures
        p@ == map_chunk_value(x, y, z, size_x, size_y, size_z, compressed_data@),
{
    let ghost w = seq![
        FieldValue::Int(x as u32),
        FieldValue::Short(y as u16),
        FieldValue::Int(z as u32),
        FieldValue::Byte(size_x as u8),
        FieldValue::Byte(size_y as u8),
        FieldValue::Byte(size_z as u8),
        FieldValue::Blob(compressed_data@),
    ];
    packet(
        MAP_CHUNK,
        vec![
            Field::Int(x as u32),
            Field::Short(y as u16),
            Field::Int(z as u32),
            Field::Byte(size_x as u8),
            Field::Byte(size_y as u8),
            Field::Byte(size_z as u8),
            Field::Blob(compressed_data),
        ],
        Ghost(w),
    )
}

pub fn block_change(x: i32, y: i8, z: i32, block_type: u8, block_metadata: u8) -> (p: Packet)
    ensures
        p@ == (PacketValue {
            id: BLOCK_CHANGE,
            fields: seq![
                FieldValue::Int(x as u32),
                FieldValue::Byte(y as u8),
                FieldValue::Int(z as u32),
                FieldValue::Byte(block_type),
                FieldValue::Byte(block_metadata),
            ],
        }),
{
    let ghost w = seq![
        FieldValue::Int(x as u32),
        FieldValue::Byte(y as u8),
        FieldValue::Int(z as u32),
        FieldValue::Byte(block_type),
        FieldValue::Byte(block_metadata),
    ];
    packet(
        BLOCK_CHANGE,
        vec![
            Field::Int(x as u32),
            Field::Byte(y as u8),
            Field::Int(z as u32),
            Field::Byte(block_type),
            Field::Byte(block_metadata),
        ],
        Ghost(w),
    )
}

pub fn animation(entity_id: u32, animate: u8) -> (p: Packet)
    ensures
        p@ == (PacketValue {
            id: ANIMATION,
            fields: seq![FieldValue::Int(entity_id), FieldValue::Byte(animate)],
        }),
{
    let ghost w = seq![FieldValue::Int(entity_id), FieldValue::Byte(animate)];
    packet(ANIMATION, vec![Field::Int(entity_id), Field::Byte(animate)], Ghost(w))
}

/// Tells the client why it is being disconnected.
pub fn kick(reason: &String) -> (p: Packet)
    ensures
        p@ == (PacketValue {
            id: KICK_OR_DISCONNECT,
            fields: seq![FieldValue::Text(utf8_of(reason@))],
        }),
{
    let f = text(reason);
    let ghost w = seq![f@];
    packet(KICK_OR_DISCONNECT, vec![f], Ghost(w))
}

} // verus!
