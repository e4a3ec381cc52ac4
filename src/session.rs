//! What a connection's bytes mean: the login handshake, and the packets of a playing client.
//!
//! Both read the buffered bytes packet by packet and stop at the first packet that has not
//! fully arrived; what they return says how many bytes they used, so that the rest is kept
//! for the next tick.
use crate::byte_man::lossy_text;
use crate::event::{
    face_of, AnimationEvent, ChatMessageEvent, Face, PlayerDiggingEvent,
    PlayerPositionAndLookEvent,
};
use crate::packet::{
    byte_field, deserialize, get_byte, get_int, get_long, get_text, int_field,
    lemma_packet_round_trip, long_field, parse_packet, text_field, FieldValue, Packet,
    PacketParse, PacketValue, ANIMATION, CHAT_MESSAGE, HANDSHAKE, KEEP_ALIVE, KICK_OR_DISCONNECT,
    LOGIN, PLAYER, PLAYER_DIGGING, PLAYER_LOOK, PLAYER_POSITION, PLAYER_POSITION_AND_LOOK,
    packet_fits, kinds_of, layout,
};
use crate::to_client::{handshake, keep_alive, login, utf8_of};
use crate::util::{decimal_from_u8, decimal_text};
use vstd::prelude::*;

verus! {

/// A connection that is being closed, and why.
#[derive(Clone, Debug)]
pub struct Disconnecting {
    pub reason: String,
}

// ---------------------------------------------------------------------------------------
// Login.
// ---------------------------------------------------------------------------------------
/// The packets that a client may send before it has logged in.
pub open spec fn login_accepts(id: u8) -> bool {
    id == KEEP_ALIVE || id == HANDSHAKE || id == LOGIN
}

pub open spec fn keep_alive_reply() -> PacketValue {
    PacketValue { id: KEEP_ALIVE, fields: seq![] }
}

/// The server's handshake: no authentication, connection hash `-`.
pub open spec fn handshake_reply() -> PacketValue {
    PacketValue { id: HANDSHAKE, fields: seq![FieldValue::Text(utf8_of(seq!['-']))] }
}

pub open spec fn login_reply(entity_id: u32, seed: i64) -> PacketValue {
    PacketValue {
        id: LOGIN,
        fields: seq![
            FieldValue::Int(entity_id),
            FieldValue::Text(seq![]),
            FieldValue::Text(seq![]),
            FieldValue::Long(seed as u64),
            FieldValue::Byte(0),
        ],
    }
}

pub enum LoginProgress {
    /// More bytes are needed.
    Pending,
    /// The client logged in, with this user name (as sent).
    LoggedIn(Seq<u8>),
    /// The client sent a packet that has no place in a login.
    Rejected(u8),
}

pub struct LoginTrace {
    pub replies: Seq<PacketValue>,
    pub end: int,
    pub progress: LoginProgress,
}

/// The login as the bytes from `i` on tell it: each keep-alive is answered with a keep-alive
/// and each handshake with the server's handshake; a login request is answered with the
/// player's entity id and the map seed, and ends the login. A packet of another kind rejects
/// the login; a packet that has not fully arrived ends the reading.
pub open spec fn login_trace(b: Seq<u8>, i: int, entity_id: u32, seed: i64) -> LoginTrace
    decreases b.len() - i,
{
    if i < 0 || i >= b.len() {
        LoginTrace { replies: seq![], end: i, progress: LoginProgress::Pending }
    } else if !login_accepts(b[i]) {
        LoginTrace { replies: seq![], end: i, progress: LoginProgress::Rejected(b[i]) }
    } else {
        match parse_packet(b, i) {
            PacketParse::Done(p, j) => if !(i < j <= b.len()) {
                LoginTrace { replies: seq![], end: i, progress: LoginProgress::Pending }
            } else if p.id == LOGIN {
                LoginTrace {
                    replies: seq![login_reply(entity_id, seed)],
                    end: j,
                    progress: LoginProgress::LoggedIn(text_field(p, 1)),
                }
            } else {
                let rest = login_trace(b, j, entity_id, seed);
                let reply = if p.id == HANDSHAKE {
                    handshake_reply()
                } else {
                    keep_alive_reply()
                };
                LoginTrace {
                    replies: seq![reply] + rest.replies,
                    end: rest.end,
                    progress: rest.progress,
                }
            },
            _ => LoginTrace { replies: seq![], end: i, progress: LoginProgress::Pending },
        }
    }
}

pub open spec fn packet_values(ps: Seq<Packet>) -> Seq<PacketValue> {
    ps.map_values(|p: Packet| p@)
}

/// How far a login has come.
#[derive(Clone, Debug)]
pub enum LoginStatus {
    Pending,
    LoggedIn(String),
    Rejected(u8),
}

/// What one reading of a connection in the login state gives: the bytes used, the packets
/// to answer with, in order, and how far the login has come.
pub struct LoginStep {
    pub consumed: usize,
    pub replies: Vec<Packet>,
    pub status: LoginStatus,
}

/// Reads the login packets at the start of `buf` for the player with index `entity_id` in a
/// world with seed `seed`.
pub fn login_step(buf: &[u8], entity_id: u32, seed: i64) -> (r: LoginStep)
    ensures
        ({
            let t = login_trace(buf@, 0, entity_id, seed);
            &&& r.consumed == t.end
            &&& packet_values(r.replies@) == t.replies
            &&& match t.progress {
                LoginProgress::Pending => r.status is Pending,
                LoginProgress::LoggedIn(name) => r.status matches LoginStatus::LoggedIn(s)
                    && s@ == lossy_text(name),
                LoginProgress::Rejected(id) => r.status matches LoginStatus::Rejected(k) && k
                    == id,
            }
        }),
{
    let ghost b = buf@;
    let mut pos: usize = 0;
    let mut replies: Vec<Packet> = Vec::new();
    while pos < buf.len()
        invariant
            buf@ == b,
            pos <= b.len(),
            ({
                let t = login_trace(b, 0, entity_id, seed);
                let u = login_trace(b, pos as int, entity_id, seed);
                &&& t.replies == packet_values(replies@) + u.replies
                &&& t.end == u.end
                &&& t.progress == u.progress
            }),
        decreases b.len() - pos,
    {
        let start = pos;
        let id = buf[pos];
        if !(id == KEEP_ALIVE || id == HANDSHAKE || id == LOGIN) {
            proof {
                assert(packet_values(replies@) + seq![] =~= packet_values(replies@));
            }
            return LoginStep { consumed: pos, replies, status: LoginStatus::Rejected(id) };
        }
        match deserialize(buf, &mut pos) {
            Ok(p) => {
                proof {
                    lemma_packet_round_trip(b, start as int);
                }
                let ghost before = packet_values(replies@);
                if p.id == LOGIN {
                    proof {
                        assert(kinds_of(p@.fields) == layout(LOGIN)->Some_0);
                        assert(p@.fields.len() == 5);
                    }
                    let name = get_text(&p, 1);
                    replies.push(login(entity_id, seed, 0));
                    proof {
                        assert(packet_values(replies@) =~= before + seq![
                            login_reply(entity_id, seed),
                        ]);
                    }
                    return LoginStep { consumed: pos, replies, status: LoginStatus::LoggedIn(name) };
                } else if p.id == HANDSHAKE {
                    let hash = String::from_str("-");
                    proof {
                        reveal_strlit("-");
                        assert(hash@ =~= seq!['-']);
                    }
                    replies.push(handshake(&hash));
                    proof {
                        assert(packet_values(replies@) =~= before + seq![handshake_reply()]);
                    }
                } else {
                    replies.push(keep_alive());
                    proof {
                        assert(packet_values(replies@) =~= before + seq![keep_alive_reply()]);
                    }
                }
                proof {
                    let u = login_trace(b, pos as int, entity_id, seed);
                    assert(packet_values(replies@) + u.replies =~= before + login_trace(
                        b,
                        start as int,
                        entity_id,
                        seed,
                    ).replies);
                }
            },
            Err(_) => {
                proof {
                    assert(packet_values(replies@) + seq![] =~= packet_values(replies@));
                }
                return LoginStep { consumed: start, replies, status: LoginStatus::Pending };
            },
        }
    }
    proof {
        assert(packet_values(replies@) + seq![] =~= packet_values(replies@));
    }
    LoginStep { consumed: pos, replies, status: LoginStatus::Pending }
}

// ---------------------------------------------------------------------------------------
// A playing client.
// ---------------------------------------------------------------------------------------
/// The packets that a playing client may send.
pub open spec fn play_accepts(id: u8) -> bool {
    id == KEEP_ALIVE || id == HANDSHAKE || id == LOGIN || id == CHAT_MESSAGE || id
        == PLAYER_POSITION_AND_LOOK || id == PLAYER || id == PLAYER_POSITION || id == PLAYER_LOOK
        || id == ANIMATION || id == PLAYER_DIGGING || id == KICK_OR_DISCONNECT
}

/// What a packet of a playing client means.
pub enum Inbound {
    Chat(Seq<u8>),
    Movement(PlayerPositionAndLookEvent),
    Digging(PlayerDiggingEvent),
    Animation(AnimationEvent),
    Left(Seq<u8>),
}

/// The event that packet `p` of player `entity` publishes, if any. Keep-alives, on-ground
/// updates, stray handshakes and logins, and digging of an unknown status publish none.
pub open spec fn inbound_of(p: PacketValue, entity: u32) -> Option<Inbound> {
    if p.id == CHAT_MESSAGE {
        Some(Inbound::Chat(text_field(p, 0)))
    } else if p.id == PLAYER_POSITION {
        Some(
            Inbound::Movement(
                PlayerPositionAndLookEvent::Position {
                    entity_id: entity,
                    x: long_field(p, 0),
                    y: long_field(p, 1),
                    stance: long_field(p, 2),
                    z: long_field(p, 3),
                },
            ),
        )
    } else if p.id == PLAYER_LOOK {
        Some(
            Inbound::Movement(
                PlayerPositionAndLookEvent::Look {
                    entity_id: entity,
                    yaw: int_field(p, 0),
                    pitch: int_field(p, 1),
                },
            ),
        )
    } else if p.id == PLAYER_POSITION_AND_LOOK {
        Some(
            Inbound::Movement(
                PlayerPositionAndLookEvent::PositionAndLook {
                    entity_id: entity,
                    x: long_field(p, 0),
                    y: long_field(p, 1),
                    stance: long_field(p, 2),
                    z: long_field(p, 3),
                    yaw: int_field(p, 4),
                    pitch: int_field(p, 5),
                },
            ),
        )
    } else if p.id == PLAYER_DIGGING {
        let status = byte_field(p, 0);
        if status == 0 {
            Some(
                Inbound::Digging(
                    PlayerDiggingEvent::Started {
                        entity,
                        x: int_field(p, 1) as i32,
                        y: byte_field(p, 2) as i8,
                        z: int_field(p, 3) as i32,
                        face: face_of(byte_field(p, 4)),
                    },
                ),
            )
        } else if status == 1 {
            Some(Inbound::Digging(PlayerDiggingEvent::InProgress { entity }))
        } else if status == 2 {
            Some(Inbound::Digging(PlayerDiggingEvent::Stopped { entity }))
        } else if status == 3 {
            Some(Inbound::Digging(PlayerDiggingEvent::Completed { entity }))
        } else {
            None
        }
    } else if p.id == ANIMATION {
        Some(Inbound::Animation(AnimationEvent { entity, animation: byte_field(p, 1) }))
    } else if p.id == KICK_OR_DISCONNECT {
        Some(Inbound::Left(text_field(p, 0)))
    } else {
        None
    }
}

pub struct InboundTrace {
    pub events: Seq<Inbound>,
    pub end: int,
    pub rejected: Option<u8>,
}

pub open spec fn with_event(e: Option<Inbound>, s: Seq<Inbound>) -> Seq<Inbound> {
    match e {
        Some(v) => seq![v] + s,
        None => s,
    }
}

/// The events that the bytes from `i` on publish for player `entity`, the offset where the
/// reading stops (at the first packet that has not fully arrived), and the id of a packet
/// that a playing client may not send, if the reading stopped there.
pub open spec fn inbound_trace(b: Seq<u8>, i: int, entity: u32) -> InboundTrace
    decreases b.len() - i,
{
    if i < 0 || i >= b.len() {
        InboundTrace { events: seq![], end: i, rejected: None }
    } else if !play_accepts(b[i]) {
        InboundTrace { events: seq![], end: i, rejected: Some(b[i]) }
    } else {
        match parse_packet(b, i) {
            PacketParse::Done(p, j) => if !(i < j <= b.len()) {
                InboundTrace { events: seq![], end: i, rejected: None }
            } else {
                let rest = inbound_trace(b, j, entity);
                InboundTrace {
                    events: with_event(inbound_of(p, entity), rest.events),
                    end: rest.end,
                    rejected: rest.rejected,
                }
            },
            _ => InboundTrace { events: seq![], end: i, rejected: None },
        }
    }
}

/// An event that a playing client's packet publishes.
#[derive(Clone, Debug)]
pub enum InboundEvent {
    Chat(ChatMessageEvent),
    Movement(PlayerPositionAndLookEvent),
    Digging(PlayerDiggingEvent),
    Animation(AnimationEvent),
    /// The client said goodbye, with this reason.
    Left(String),
}

/// Whether an event is what `v` says, for a player named `name`: text is decoded lossily,
/// and a chat message comes from the player.
pub open spec fn event_is(e: InboundEvent, v: Inbound, name: Seq<char>) -> bool {
    match (e, v) {
        (InboundEvent::Chat(c), Inbound::Chat(m)) => c.from@ == name && c.message@ == lossy_text(
            m,
        ),
        (InboundEvent::Movement(a), Inbound::Movement(b)) => a == b,
        (InboundEvent::Digging(a), Inbound::Digging(b)) => a == b,
        (InboundEvent::Animation(a), Inbound::Animation(b)) => a == b,
        (InboundEvent::Left(r), Inbound::Left(t)) => r@ == lossy_text(t),
        _ => false,
    }
}

/// What one reading of a playing client's bytes gives: the bytes used, the events, in
/// order, and the id of a packet that it may not send, if one came.
pub struct InboundStep {
    pub consumed: usize,
    pub events: Vec<InboundEvent>,
    pub rejected: Option<u8>,
}

fn decode_event(p: &Packet, entity: u32, name: &String) -> (r: Option<InboundEvent>)
    requires
        packet_fits(p@),
    ensures
        match inbound_of(p@, entity) {
            Some(v) => r matches Some(e) && event_is(e, v, name@),
            None => r is None,
        },
{
    proof {
        assert(kinds_of(p@.fields).len() == p@.fields.len());
    }
    let id = p.id;
    if id == CHAT_MESSAGE {
        let message = get_text(p, 0);
        Some(InboundEvent::Chat(ChatMessageEvent { from: name.clone(), message }))
    } else if id == PLAYER_POSITION {
        Some(
            InboundEvent::Movement(
                PlayerPositionAndLookEvent::Position {
                    entity_id: entity,
                    x: get_long(p, 0),
                    y: get_long(p, 1),
                    stance: get_long(p, 2),
                    z: get_long(p, 3),
                },
            ),
        )
    } else if id == PLAYER_LOOK {
        Some(
            InboundEvent::Movement(
                PlayerPositionAndLookEvent::Look {
                    entity_id: entity,
                    yaw: get_int(p, 0),
                    pitch: get_int(p, 1),
                },
            ),
        )
    } else if id == PLAYER_POSITION_AND_LOOK {
        Some(
            InboundEvent::Movement(
                PlayerPositionAndLookEvent::PositionAndLook {
                    entity_id: entity,
                    x: get_long(p, 0),
                    y: get_long(p, 1),
                    stance: get_long(p, 2),
                    z: get_long(p, 3),
                    yaw: get_int(p, 4),
                    pitch: get_int(p, 5),
                },
            ),
        )
    } else if id == PLAYER_DIGGING {
        let status = get_byte(p, 0);
        if status == 0 {
            Some(
                InboundEvent::Digging(
                    PlayerDiggingEvent::Started {
                        entity,
                        x: get_int(p, 1) as i32,
                        y: get_byte(p, 2) as i8,
                        z: get_int(p, 3) as i32,
                        face: Face::from(get_byte(p, 4)),
                    },
                ),
            )
        } else if status == 1 {
            Some(InboundEvent::Digging(PlayerDiggingEvent::InProgress { entity }))
        } else if status == 2 {
            Some(InboundEvent::Digging(PlayerDiggingEvent::Stopped { entity }))
        } else if status == 3 {
            Some(InboundEvent::Digging(PlayerDiggingEvent::Completed { entity }))
        } else {
            None
        }
    } else if id == ANIMATION {
        Some(InboundEvent::Animation(AnimationEvent { entity, animation: get_byte(p, 1) }))
    } else if id == KICK_OR_DISCONNECT {
        Some(InboundEvent::Left(get_text(p, 0)))
    } else {
        None
    }
}

/// Reads the packets at the start of `buf` that the playing client with index `entity` and
/// name `name` sent. It stops at the first packet that has not fully arrived, or at a packet
/// that a playing client may not send.
pub fn decode_inbound(buf: &[u8], entity: u32, name: &String) -> (r: InboundStep)
    ensures
        ({
            let t = inbound_trace(buf@, 0, entity);
            &&& r.consumed == t.end
            &&& r.rejected == t.rejected
            &&& r.events@.len() == t.events.len()
            &&& forall|k: int|
                0 <= k < t.events.len() ==> event_is(#[trigger] r.events@[k], t.events[k], name@)
        }),
{
    let ghost b = buf@;
    let mut pos: usize = 0;
    let mut events: Vec<InboundEvent> = Vec::new();
    let ghost mut seen: Seq<Inbound> = seq![];
    while pos < buf.len()
        invariant
            buf@ == b,
            pos <= b.len(),
            events@.len() == seen.len(),
            forall|k: int| 0 <= k < seen.len() ==> event_is(#[trigger] events@[k], seen[k], name@),
            ({
                let t = inbound_trace(b, 0, entity);
                let u = inbound_trace(b, pos as int, entity);
                &&& t.events == seen + u.events
                &&& t.end == u.end
                &&& t.rejected == u.rejected
            }),
        decreases b.len() - pos,
    {
        let start = pos;
        let id = buf[pos];
        if !(id == KEEP_ALIVE || id == HANDSHAKE || id == LOGIN || id == CHAT_MESSAGE || id
            == PLAYER_POSITION_AND_LOOK || id == PLAYER || id == PLAYER_POSITION || id
            == PLAYER_LOOK || id == ANIMATION || id == PLAYER_DIGGING || id == KICK_OR_DISCONNECT) {
            proof {
                assert(seen + seq![] =~= seen);
            }
            return InboundStep { consumed: pos, events, rejected: Some(id) };
        }
        match deserialize(buf, &mut pos) {
            Ok(p) => {
                proof {
                    lemma_packet_round_trip(b, start as int);
                }
                let ghost u = inbound_trace(b, pos as int, entity);
                match decode_event(&p, entity, name) {
                    Some(e) => {
                        let ghost ev_before = events@;
                        events.push(e);
                        proof {
                            let v = inbound_of(p@, entity)->Some_0;
                            let s2 = seen.push(v);
                            assert(s2 + u.events =~= seen + with_event(
                                inbound_of(p@, entity),
                                u.events,
                            ));
                            assert forall|k: int| 0 <= k < s2.len() implies event_is(
                                #[trigger] events@[k],
                                s2[k],
                                name@,
                            ) by {
                                if k < seen.len() {
                                    assert(events@[k] == ev_before[k]);
                                }
                            }
                            seen = s2;
                        }
                    },
                    None => {},
                }
            },
            Err(_) => {
                proof {
                    assert(seen + seq![] =~= seen);
                }
                return InboundStep { consumed: start, events, rejected: None };
            },
        }
    }
    proof {
        assert(seen + seq![] =~= seen);
    }
    InboundStep { consumed: pos, events, rejected: None }
}

/// The reason given to a client that sent a packet it may not send.
pub fn unhandled_packet_reason(id: u8) -> (r: String)
    ensures
        r@ == "You sent a packet with id: "@ + decimal_text(id as nat)
            + ", which isn't handled just yet!"@,
{
    let mut s = String::from_str("You sent a packet with id: ");
    let digits = decimal_from_u8(id);
    s.append(digits.as_str());
    s.append(", which isn't handled just yet!");
    s
}

/// The message that tells the other players that `name` left, with its reason.
pub fn left_message(name: &String, reason: &String) -> (r: String)
    ensures
        r@ == name@ + " left the world ["@ + reason@ + "]"@,
{
    let mut s = name.clone();
    s.append(" left the world [");
    s.append(reason.as_str());
    s.append("]");
    s
}

} // verus!
