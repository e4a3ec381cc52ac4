//! The events that the systems pass to one another within a tick.
use crate::packet::{serialize, packet_bytes, packet_fits, Packet, PacketError};
use vstd::prelude::*;

verus! {

/// A player said something.
#[derive(Clone, Debug)]
pub struct ChatMessageEvent {
    pub from: String,
    pub message: String,
}

/// A message from the server to every player.
#[derive(Clone, Debug)]
pub struct SystemMessageEvent {
    pub message: String,
}

/// A player moved, looked around, or both. Coordinates are `f64` and angles `f32` bit
/// patterns.
#[derive(Clone, Copy, Debug, PartialEq, Eq, Structural)]
pub enum PlayerPositionAndLookEvent {
    PositionAndLook { entity_id: u32, x: u64, y: u64, z: u64, stance: u64, yaw: u32, pitch: u32 },
    Position { entity_id: u32, x: u64, y: u64, z: u64, stance: u64 },
    Look { entity_id: u32, yaw: u32, pitch: u32 },
}

/// The face of a block that a player digs at.
#[derive(Clone, Copy, Debug, PartialEq, Eq, Structural)]
pub enum Face {
    Bottom,
    Top,
    Back,
    Front,
    Left,
    Right,
    Unknown,
}

pub open spec fn face_of(value: u8) -> Face {
    if value == 0 {
        Face::Bottom
    } else if value == 1 {
        Face::Top
    } else if value == 2 {
        Face::Back
    } else if value == 3 {
        Face::Front
    } else if value == 4 {
        Face::Left
    } else if value == 5 {
        Face::Right
    } else {
        Face::Unknown
    }
}

impl From<u8> for Face {
    fn from(value: u8) -> (r: Face) {
        match value {
            0 => Face::Bottom,
            1 => Face::Top,
            2 => Face::Back,
            3 => Face::Front,
            4 => Face::Left,
            5 => Face::Right,
            _ => Face::Unknown,
        }
    }
}

impl vstd::std_specs::convert::FromSpecImpl<u8> for Face {
    open spec fn obeys_from_spec() -> bool {
        true
    }

    open spec fn from_spec(value: u8) -> Face {
        face_of(value)
    }
}

/// What a player does to the block it digs at; `entity` is the player's index.
#[derive(Clone, Copy, Debug, PartialEq, Eq, Structural)]
pub enum PlayerDiggingEvent {
    Started { entity: u32, x: i32, y: i8, z: i32, face: Face },
    InProgress { entity: u32 },
    Stopped { entity: u32 },
    Completed { entity: u32 },
}

/// A block of the world changes.
#[derive(Clone, Copy, Debug, PartialEq, Eq, Structural)]
pub struct BlockChangeEvent {
    pub x: i32,
    pub y: i8,
    pub z: i32,
    pub ty: u8,
    pub metadata: u8,
}

/// A player swung its arm.
#[derive(Clone, Copy, Debug, PartialEq, Eq, Structural)]
pub struct AnimationEvent {
    pub entity: u32,
    pub animation: u8,
}

/// The order in which a packet is sent when nothing asks for another.
pub const DEFAULT_ORD: usize = 5;

/// Bytes of one packet to send to the player with index `entity`; within one player's
/// stream, lower `ord` goes first.
#[derive(Clone, Debug)]
pub struct SendPacketEvent {
    pub entity: u32,
    pub ord: usize,
    pub bytes: Vec<u8>,
}

impl SendPacketEvent {
    /// The packet, written out, at the default order.
    pub fn new(entity: u32, packet: &Packet) -> (r: Result<Self, PacketError>)
        ensures
            packet_fits(packet@) ==> (r matches Ok(e) && e.entity == entity && e.ord
                == DEFAULT_ORD && e.bytes@ == packet_bytes(packet@)),
            !packet_fits(packet@) ==> (r matches Err(PacketError::InvalidInput(_))),
    {
        Self::with_ord(entity, DEFAULT_ORD, packet)
    }

    /// The packet, written out, at order `ord`.
    pub fn with_ord(entity: u32, ord: usize, packet: &Packet) -> (r: Result<Self, PacketError>)
        ensures
            packet_fits(packet@) ==> (r matches Ok(e) && e.entity == entity && e.ord == ord
                && e.bytes@ == packet_bytes(packet@)),
            !packet_fits(packet@) ==> (r matches Err(PacketError::InvalidInput(_))),
    {
        let bytes = serialize(packet)?;
        Ok(Self { entity, ord, bytes })
    }
}

} // verus!
