//! The decisions of the tick systems: which packets each player gets, and in which order.
//!
//! Each function here takes a snapshot of the state it reads as plain values and returns
//! what is to be sent or changed; the scheduler around it queries the entities and delivers.
use crate::entity::{
    first_index, sees, swap_removed, Digging, PlayerChunkDB, PlayerEntityDB, VisibilityChange,
};
use crate::event::{BlockChangeEvent, PlayerDiggingEvent, SendPacketEvent};
use crate::packet::{Packet, PacketValue};
use crate::to_client::{
    destroy_entity, entity, entity_look_relative_move, entity_teleport, map_chunk,
    named_entity_spawn, pre_chunk,
};
use vstd::prelude::*;

verus! {

/// The order of the packet that announces a chunk.
pub const PRE_CHUNK_ORD: usize = 1;
/// The order of the packet that carries a chunk's blocks.
pub const MAP_CHUNK_ORD: usize = 2;
/// The order of the packet that tells a client to drop a chunk.
pub const UNLOAD_CHUNK_ORD: usize = 3;

// ---------------------------------------------------------------------------------------
// Sending.
// ---------------------------------------------------------------------------------------
/// Event `i` goes out before event `j` to the same player: a lower order first, and events
/// of one order in the order they were published.
pub open spec fn goes_before(events: Seq<SendPacketEvent>, i: int, j: int) -> bool {
    events[i].ord < events[j].ord || (events[i].ord == events[j].ord && i < j)
}

/// The positions, in `events`, of the packets for player `entity`, in the order in which
/// they are to be written: by order, and in publishing order within one order.
pub fn outbound_order(events: &Vec<SendPacketEvent>, entity: u32) -> (r: Vec<usize>)
    ensures
        forall|k: int|
            0 <= k < r@.len() ==> #[trigger] r@[k] < events@.len() && events@[r@[k] as int].entity
                == entity,
        forall|i: int|
            0 <= i < events@.len() && events@[i].entity == entity ==> r@.contains(i as usize),
        forall|a: int, b: int|
            0 <= a < b < r@.len() ==> goes_before(events@, r@[a] as int, r@[b] as int),
{
    let mut order: Vec<usize> = Vec::new();
    let mut i: usize = 0;
    while i < events.len()
        invariant
            i <= events@.len(),
            forall|k: int|
                0 <= k < order@.len() ==> #[trigger] order@[k] < i && events@[order@[k] as int].entity
                    == entity,
            forall|j: int| 0 <= j < i && events@[j].entity == entity ==> order@.contains(j as usize),
            forall|a: int, b: int|
                0 <= a < b < order@.len() ==> goes_before(events@, order@[a] as int, order@[b] as int),
        decreases events@.len() - i,
    {
        if events[i].entity == entity {
            let ord = events[i].ord;
            let mut p: usize = 0;
            while p < order.len() && events[order[p]].ord <= ord
                invariant
                    p <= order@.len(),
                    forall|k: int| 0 <= k < order@.len() ==> #[trigger] order@[k] < events@.len(),
                    forall|k: int| 0 <= k < p ==> events@[#[trigger] order@[k] as int].ord <= ord,
                decreases order@.len() - p,
            {
                p = p + 1;
            }
            let ghost before = order@;
            order.insert(p, i);
            proof {
                let now = order@;
                assert forall|k: int| 0 <= k < now.len() implies #[trigger] now[k] == (if k < p {
                    before[k]
                } else if k == p {
                    i
                } else {
                    before[k - 1]
                }) by {}
                assert forall|k: int| p <= k < before.len() implies events@[before[k] as int].ord
                    > ord by {
                    if p < before.len() {
                        if k > p {
                            assert(goes_before(events@, before[p as int] as int, before[k] as int));
                        }
                    }
                }
                assert forall|a: int, b: int| 0 <= a < b < now.len() implies goes_before(
                    events@,
                    now[a] as int,
                    now[b] as int,
                ) by {
                    if b < p {
                        assert(goes_before(events@, before[a] as int, before[b] as int));
                    } else if a > p {
                        assert(goes_before(events@, before[a - 1] as int, before[b - 1] as int));
                    } else if a < p && b > p {
                        assert(goes_before(events@, before[a] as int, before[b - 1] as int));
                    }
                }
                assert forall|j: int|
                    0 <= j < i + 1 && events@[j].entity == entity implies now.contains(
                    j as usize,
                ) by {
                    if j < i {
                        let k = choose|k: int| 0 <= k < before.len() && before[k] == j as usize;
                        if k < p {
                            assert(now[k] == j as usize);
                        } else {
                            assert(now[k + 1] == j as usize);
                        }
                    } else {
                        assert(now[p as int] == i);
                    }
                }
            }
        }
        i = i + 1;
    }
    order
}

// ---------------------------------------------------------------------------------------
// Seeing other players.
// ---------------------------------------------------------------------------------------
/// What the other systems need to know of a player: its index and name, the block column it
/// stands in, its position in 1/32 blocks and its packed yaw and pitch.
#[derive(Clone, Debug)]
pub struct PlayerSnapshot {
    pub entity_id: u32,
    pub name: String,
    pub block_x: i32,
    pub block_z: i32,
    pub fixed_x: i32,
    pub fixed_y: i32,
    pub fixed_z: i32,
    pub yaw: i8,
    pub pitch: i8,
}

pub open spec fn spawn_packet(o: PlayerSnapshot) -> PacketValue {
    named_entity_spawn_value(o.entity_id, o.name@, o.fixed_x, o.fixed_y, o.fixed_z, o.yaw, o.pitch)
}

pub open spec fn named_entity_spawn_value(
    id: u32,
    name: Seq<char>,
    x: i32,
    y: i32,
    z: i32,
    yaw: i8,
    pitch: i8,
) -> PacketValue {
    PacketValue {
        id: crate::packet::NAMED_ENTITY_SPAWN,
        fields: seq![
            crate::packet::FieldValue::Int(id),
            crate::packet::FieldValue::Text(crate::to_client::utf8_of(name)),
            crate::packet::FieldValue::Int(x as u32),
            crate::packet::FieldValue::Int(y as u32),
            crate::packet::FieldValue::Int(z as u32),
            crate::packet::FieldValue::Byte(yaw as u8),
            crate::packet::FieldValue::Byte(pitch as u8),
            crate::packet::FieldValue::Short(0),
        ],
    }
}

pub open spec fn id_packet(kind: u8, id: u32) -> PacketValue {
    PacketValue { id: kind, fields: seq![crate::packet::FieldValue::Int(id)] }
}

/// One step of a viewer's view: another player that stands in one of the viewer's chunks
/// and was not known appears (an `Entity` packet, then a `NamedEntitySpawn`); one that is
/// known and no longer stands there vanishes (a `DestroyEntity`).
pub open spec fn view_step(
    list: Seq<u32>,
    chunks: Seq<(i32, i32)>,
    viewer: u32,
    o: PlayerSnapshot,
) -> (Seq<u32>, Seq<PacketValue>) {
    let visible = sees(chunks, o.block_x, o.block_z);
    if o.entity_id == viewer {
        (list, seq![])
    } else if visible && !list.contains(o.entity_id) {
        (
            list.push(o.entity_id),
            seq![id_packet(crate::packet::ENTITY, o.entity_id), spawn_packet(o)],
        )
    } else if !visible && list.contains(o.entity_id) {
        (
            swap_removed(list, first_index(list, o.entity_id)),
            seq![id_packet(crate::packet::DESTROY_ENTITY, o.entity_id)],
        )
    } else {
        (list, seq![])
    }
}

pub open spec fn view_steps(
    list: Seq<u32>,
    chunks: Seq<(i32, i32)>,
    viewer: u32,
    others: Seq<PlayerSnapshot>,
) -> (Seq<u32>, Seq<PacketValue>)
    decreases others.len(),
{
    if others.len() == 0 {
        (list, seq![])
    } else {
        let (l, ps) = view_steps(list, chunks, viewer, others.drop_last());
        let (l2, ps2) = view_step(l, chunks, viewer, others.last());
        (l2, ps + ps2)
    }
}

/// Brings player `viewer`'s view of the other players up to date, one after the other, and
/// returns the packets to send it, in order.
pub fn calculate_visible_players(
    viewer: u32,
    chunks: &PlayerChunkDB,
    view: &mut PlayerEntityDB,
    others: &Vec<PlayerSnapshot>,
) -> (r: Vec<Packet>)
    ensures
        ({
            let (l, ps) = view_steps(old(view).visible_entities@, chunks.chunks@, viewer, others@);
            &&& final(view).visible_entities@ == l
            &&& crate::session::packet_values(r@) == ps
        }),
{
    let ghost start = view.visible_entities@;
    let mut out: Vec<Packet> = Vec::new();
    let mut i: usize = 0;
    while i < others.len()
        invariant
            i <= others@.len(),
            start == old(view).visible_entities@,
            ({
                let (l, ps) = view_steps(start, chunks.chunks@, viewer, others@.take(i as int));
                &&& view.visible_entities@ == l
                &&& crate::session::packet_values(out@) == ps
            }),
        decreases others@.len() - i,
    {
        let o = &others[i];
        proof {
            assert(others@.take(i as int + 1).drop_last() =~= others@.take(i as int));
        }
        let ghost before = crate::session::packet_values(out@);
        if o.entity_id != viewer {
            let visible = chunks.sees(o.block_x, o.block_z);
            match view.update(o.entity_id, visible) {
                VisibilityChange::Appeared => {
                    out.push(entity(o.entity_id));
                    out.push(
                        named_entity_spawn(
                            o.entity_id,
                            &o.name,
                            o.fixed_x,
                            o.fixed_y,
                            o.fixed_z,
                            o.yaw,
                            o.pitch,
                            0,
                        ),
                    );
                    proof {
                        assert(crate::session::packet_values(out@) =~= before + seq![
                            id_packet(crate::packet::ENTITY, o.entity_id),
                            spawn_packet(*o),
                        ]);
                    }
                },
                VisibilityChange::Vanished => {
                    out.push(destroy_entity(o.entity_id));
                    proof {
                        assert(crate::session::packet_values(out@) =~= before + seq![
                            id_packet(crate::packet::DESTROY_ENTITY, o.entity_id),
                        ]);
                    }
                },
                VisibilityChange::Unchanged => {
                    assert(before + seq![] =~= before);
                },
            }
        } else {
            assert(before + seq![] =~= before);
        }
        i = i + 1;
    }
    proof {
        assert(others@.take(others@.len() as int) =~= others@);
    }
    out
}

// ---------------------------------------------------------------------------------------
// Moving players.
// ---------------------------------------------------------------------------------------
pub open spec fn fits_i8(v: i32) -> bool {
    -128 <= v <= 127
}

/// How the other players learn of a player's move, given the move in 1/32 blocks on each
/// axis: a relative move when every part fits a byte (under four blocks), else a teleport
/// to the player's position.
pub fn movement_packet(o: &PlayerSnapshot, dx: i32, dy: i32, dz: i32) -> (r: Packet)
    ensures
        fits_i8(dx) && fits_i8(dy) && fits_i8(dz) ==> r@ == crate::to_client::entity_look_relative_move_value(
            o.entity_id,
            dx as i8,
            dy as i8,
            dz as i8,
            o.yaw,
            o.pitch,
        ),
        !(fits_i8(dx) && fits_i8(dy) && fits_i8(dz)) ==> r@
            == crate::to_client::entity_teleport_value(
            o.entity_id,
            o.fixed_x,
            o.fixed_y,
            o.fixed_z,
            o.yaw,
            o.pitch,
        ),
{
    if -128 <= dx && dx <= 127 && -128 <= dy && dy <= 127 && -128 <= dz && dz <= 127 {
        entity_look_relative_move(o.entity_id, dx as i8, dy as i8, dz as i8, o.yaw, o.pitch)
    } else {
        teleport_packet(o)
    }
}

/// A teleport of the player to its position, which corrects any drift of the clients.
pub fn teleport_packet(o: &PlayerSnapshot) -> (r: Packet)
    ensures
        r@ == crate::to_client::entity_teleport_value(
            o.entity_id,
            o.fixed_x,
            o.fixed_y,
            o.fixed_z,
            o.yaw,
            o.pitch,
        ),
{
    entity_teleport(o.entity_id, o.fixed_x, o.fixed_y, o.fixed_z, o.yaw, o.pitch)
}

// ---------------------------------------------------------------------------------------
// Digging.
// ---------------------------------------------------------------------------------------
/// A player's digging after an event of its own, and the block change it causes.
pub struct DigOutcome {
    pub digging: Option<Digging>,
    pub block_change: Option<BlockChangeEvent>,
}

/// Starting to dig marks the target; stopping clears it; finishing clears it and breaks the
/// marked block (it becomes air).
pub fn digging(current: Option<Digging>, event: &PlayerDiggingEvent) -> (r: DigOutcome)
    ensures
        match *event {
            PlayerDiggingEvent::Started { x, y, z, face, .. } => r.digging == Some(
                Digging { x, y, z, face },
            ) && r.block_change is None,
            PlayerDiggingEvent::InProgress { .. } => r.digging == current && r.block_change is None,
            PlayerDiggingEvent::Stopped { .. } => r.digging is None && r.block_change is None,
            PlayerDiggingEvent::Completed { .. } => r.digging is None && r.block_change == match
                current {
                Some(d) => Some(BlockChangeEvent { x: d.x, y: d.y, z: d.z, ty: 0, metadata: 0 }),
                None => None,
            },
        },
{
    match *event {
        PlayerDiggingEvent::Started { x, y, z, face, .. } => DigOutcome {
            digging: Some(Digging { x, y, z, face }),
            block_change: None,
        },
        PlayerDiggingEvent::InProgress { .. } => DigOutcome { digging: current, block_change: None },
        PlayerDiggingEvent::Stopped { .. } => DigOutcome { digging: None, block_change: None },
        PlayerDiggingEvent::Completed { .. } => DigOutcome {
            digging: None,
            block_change: match current {
                Some(d) => Some(BlockChangeEvent { x: d.x, y: d.y, z: d.z, ty: 0, metadata: 0 }),
                None => None,
            },
        },
    }
}

// ---------------------------------------------------------------------------------------
// Chunks around a player.
// ---------------------------------------------------------------------------------------
/// The chunk holding block column `(x, z)`.
pub fn player_chunk(block_x: i32, block_z: i32) -> (r: (i32, i32))
    ensures
        r == (block_x >> 4i32, block_z >> 4i32),
{
    (block_x >> 4i32, block_z >> 4i32)
}

/// The chunk a world's spawn lies in.
pub fn spawn_chunk(spawn: [i32; 3]) -> (r: (i32, i32))
    ensures
        r == (spawn[0] >> 4i32, spawn[2] >> 4i32),
{
    (spawn[0] >> 4i32, spawn[2] >> 4i32)
}

/// Chunk coordinates that stay well inside `i32` when a radius is added or multiplied by 16.
pub open spec fn chunk_coord_ok(v: i32) -> bool {
    -0x400_0000 <= v < 0x400_0000
}

pub open spec fn in_square(c: (i32, i32), cx: i32, cz: i32, radius: i32) -> bool {
    cx - radius <= c.0 <= cx + radius && cz - radius <= c.1 <= cz + radius
}

/// The chunks of the square of `radius` around `(cx, cz)` that `db` does not hold yet, each
/// once.
pub fn chunks_to_load(cx: i32, cz: i32, radius: i32, db: &PlayerChunkDB) -> (r: Vec<(i32, i32)>)
    requires
        chunk_coord_ok(cx),
        chunk_coord_ok(cz),
        0 <= radius <= 0x10_0000,
    ensures
        r@.no_duplicates(),
        forall|c: (i32, i32)|
            #[trigger] r@.contains(c) <==> (in_square(c, cx, cz, radius) && !db.chunks@.contains(c)),
{
    let mut out: Vec<(i32, i32)> = Vec::new();
    let mut x = cx - radius;
    while x <= cx + radius
        invariant
            cx - radius <= x <= cx + radius + 1,
            chunk_coord_ok(cx),
            chunk_coord_ok(cz),
            0 <= radius <= 0x10_0000,
            out@.no_duplicates(),
            forall|c: (i32, i32)|
                #[trigger] out@.contains(c) <==> (in_square(c, cx, cz, radius) && c.0 < x
                    && !db.chunks@.contains(c)),
        decreases cx + radius + 1 - x,
    {
        let mut z = cz - radius;
        while z <= cz + radius
            invariant
                cx - radius <= x <= cx + radius,
                cz - radius <= z <= cz + radius + 1,
                chunk_coord_ok(cx),
                chunk_coord_ok(cz),
                0 <= radius <= 0x10_0000,
                out@.no_duplicates(),
                forall|c: (i32, i32)|
                    #[trigger] out@.contains(c) <==> (in_square(c, cx, cz, radius) && (c.0 < x || (
                    c.0 == x && c.1 < z)) && !db.chunks@.contains(c)),
            decreases cz + radius + 1 - z,
        {
            if !db.contains(x, z) {
                let ghost before = out@;
                out.push((x, z));
                proof {
                    assert forall|c: (i32, i32)| #[trigger] out@.contains(c) <==> (before.contains(c)
                        || c == (x, z)) by {
                        if out@.contains(c) {
                            let k = choose|k: int| 0 <= k < out@.len() && out@[k] == c;
                            if k < before.len() {
                                assert(before[k] == c);
                            }
                        }
                        if before.contains(c) {
                            let k = choose|k: int| 0 <= k < before.len() && before[k] == c;
                            assert(out@[k] == c);
                        }
                        if c == (x, z) {
                            assert(out@[before.len() as int] == c);
                        }
                    }
                    assert forall|p: int, q: int|
                        0 <= p < out@.len() && 0 <= q < out@.len() && p != q implies out@[p]
                        != out@[q] by {
                        if p < before.len() && q < before.len() {
                        } else if p < before.len() {
                            assert(before.contains(out@[p]));
                        } else if q < before.len() {
                            assert(before.contains(out@[q]));
                        }
                    }
                }
            }
            z = z + 1;
        }
        x = x + 1;
    }
    out
}

/// The chunks of `db` that lie outside the square of `radius` around `(cx, cz)`, in the
/// order `db` holds them.
pub fn chunks_to_unload(cx: i32, cz: i32, radius: i32, db: &PlayerChunkDB) -> (r: Vec<(i32, i32)>)
    requires
        chunk_coord_ok(cx),
        chunk_coord_ok(cz),
        0 <= radius <= 0x10_0000,
    ensures
        r@ == db.chunks@.filter(|c: (i32, i32)| !in_square(c, cx, cz, radius)),
{
    let mut out: Vec<(i32, i32)> = Vec::new();
    let mut i: usize = 0;
    while i < db.chunks.len()
        invariant
            i <= db.chunks@.len(),
            chunk_coord_ok(cx),
            chunk_coord_ok(cz),
            0 <= radius <= 0x10_0000,
            out@ == db.chunks@.take(i as int).filter(
                |c: (i32, i32)| !in_square(c, cx, cz, radius),
            ),
        decreases db.chunks@.len() - i,
    {
        let (x, z) = db.chunks[i];
        proof {
            let t = db.chunks@.take(i as int + 1);
            assert(t.drop_last() =~= db.chunks@.take(i as int));
            reveal(Seq::filter);
        }
        if x < cx - radius || x > cx + radius || z < cz - radius || z > cz + radius {
            out.push((x, z));
        }
        i = i + 1;
    }
    proof {
        assert(db.chunks@.take(db.chunks@.len() as int) =~= db.chunks@);
    }
    out
}

/// The packets that bring chunk `(x, z)` to a client: the announcement, then the blocks
/// (compressed), at their orders.
pub fn chunk_packets(x: i32, z: i32, compressed: Vec<u8>) -> (r: (Packet, Packet))
    requires
        chunk_coord_ok(x),
        chunk_coord_ok(z),
    ensures
        r.0@ == crate::to_client::pre_chunk_value(x, z, true),
        r.1@ == crate::to_client::map_chunk_value(
            (x * 16) as i32,
            0,
            (z * 16) as i32,
            15,
            127,
            15,
            compressed@,
        ),
{
    (pre_chunk(x, z, true), map_chunk(x * 16, 0, z * 16, 15, 127, 15, compressed))
}

/// A chunk that was loaded for a client, with its compressed payload.
#[derive(Clone, Debug)]
pub struct LoadedChunk {
    pub x: i32,
    pub z: i32,
    pub compressed: Vec<u8>,
}

/// The announcement and the blocks of each chunk, chunk after chunk.
pub open spec fn chunk_packet_values(loaded: Seq<LoadedChunk>) -> Seq<PacketValue>
    decreases loaded.len(),
{
    if loaded.len() == 0 {
        seq![]
    } else {
        let c = loaded.last();
        chunk_packet_values(loaded.drop_last()) + seq![
            crate::to_client::pre_chunk_value(c.x, c.z, true),
            crate::to_client::map_chunk_value(
                (c.x * 16) as i32,
                0,
                (c.z * 16) as i32,
                15,
                127,
                15,
                c.compressed@,
            ),
        ]
    }
}

/// What a player receives when it enters the world: each loaded chunk (announcement, then
/// blocks), then the spawn position, then its position (with `position`'s coordinates and
/// stance) looking straight ahead, not on the ground.
pub fn initializing_packets(
    loaded: &Vec<LoadedChunk>,
    spawn: [i32; 3],
    position: &crate::entity::Position,
) -> (r: Vec<Packet>)
    requires
        forall|i: int|
            0 <= i < loaded@.len() ==> chunk_coord_ok(#[trigger] loaded@[i].x) && chunk_coord_ok(
                loaded@[i].z,
            ),
    ensures
        crate::session::packet_values(r@) == chunk_packet_values(loaded@) + seq![
            crate::to_client::spawn_position_value(spawn[0], spawn[1], spawn[2]),
            crate::to_client::position_look_value(
                position.x,
                position.stance,
                position.y,
                position.z,
                0,
                0,
                false,
            ),
        ],
{
    let mut out: Vec<Packet> = Vec::new();
    let mut i: usize = 0;
    while i < loaded.len()
        invariant
            i <= loaded@.len(),
            forall|k: int|
                0 <= k < loaded@.len() ==> chunk_coord_ok(#[trigger] loaded@[k].x) && chunk_coord_ok(
                    loaded@[k].z,
                ),
            crate::session::packet_values(out@) == chunk_packet_values(loaded@.take(i as int)),
        decreases loaded@.len() - i,
    {
        let c = &loaded[i];
        let ghost before = crate::session::packet_values(out@);
        let (pre, map) = chunk_packets(c.x, c.z, vstd::slice::slice_to_vec(c.compressed.as_slice()));
        out.push(pre);
        out.push(map);
        proof {
            let t = loaded@.take(i as int + 1);
            assert(t.drop_last() =~= loaded@.take(i as int));
            assert(t.last() == loaded@[i as int]);
            assert(crate::session::packet_values(out@) =~= chunk_packet_values(t));
        }
        i = i + 1;
    }
    proof {
        assert(loaded@.take(loaded@.len() as int) =~= loaded@);
    }
    let ghost chunks = crate::session::packet_values(out@);
    out.push(crate::to_client::spawn_position(spawn[0], spawn[1], spawn[2]));
    out.push(
        crate::to_client::position_look(
            position.x,
            position.stance,
            position.y,
            position.z,
            0,
            0,
            false,
        ),
    );
    proof {
        assert(crate::session::packet_values(out@) =~= chunks + seq![
            crate::to_client::spawn_position_value(spawn[0], spawn[1], spawn[2]),
            crate::to_client::position_look_value(
                position.x,
                position.stance,
                position.y,
                position.z,
                0,
                0,
                false,
            ),
        ]);
    }
    out
}

/// The line that shows a chat message: `<from> message`.
pub fn chat_line(from: &String, message: &String) -> (r: String)
    ensures
        r@ == "<"@ + from@ + "> "@ + message@,
{
    let mut s = String::from_str("<");
    s.append(from.as_str());
    s.append("> ");
    s.append(message.as_str());
    s
}

} // verus!
