//! The wire packets: one layout of typed fields per packet id, and the codec between
//! packets and bytes.
//!
//! A packet is its id byte followed by its fields, each in the layout that the id fixes.
//! Text is kept as the bytes that travel (a two-byte length, then UTF-8), so that a packet
//! that was read writes back to the very same bytes; `text_of` decodes it.
use crate::byte_man::{
    get_bytes, get_u16, get_u32, get_u64, get_u8, lemma_u16_bytes, lemma_u32_bytes,
    lemma_u64_bytes, put_bytes, put_u16, put_u32, put_u64,
    put_u8, u16_at, u16_bytes, u32_at, u32_bytes, u64_at, u64_bytes,
};
use crate::byte_man::{lossy_text, text_from_utf8_lossy};
use crate::entity::Item;
use FieldKind::{Blob, Byte, Int, Long, Short, Slots, Text};
use vstd::prelude::*;

verus! {

/// Why a packet could not be read or written.
#[derive(Debug, Clone, PartialEq, Eq)]
pub enum PacketError {
    /// The bytes end before the packet does; nothing was consumed.
    NotEnoughBytes,
    /// A field holds a value that the protocol does not allow.
    InvalidInput(String),
    /// No packet has this id.
    InvalidPacketID(u8),
}

/// The shape of one field on the wire.
#[derive(Clone, Copy, Debug, PartialEq, Eq, Structural)]
pub enum FieldKind {
    /// One byte (`u8`, `i8`, `bool`).
    Byte,
    /// Two bytes, big-endian.
    Short,
    /// Four bytes, big-endian (`i32`, `u32`, or an `f32` bit pattern).
    Int,
    /// Eight bytes, big-endian (`i64`, `u64`, or an `f64` bit pattern).
    Long,
    /// A two-byte length, then that many bytes of UTF-8.
    Text,
    /// A four-byte non-negative length, then that many bytes.
    Blob,
    /// A two-byte count, then that many inventory slots.
    Slots,
}

/// One field of a packet, as it travels.
#[derive(Clone, Debug)]
pub enum Field {
    Byte(u8),
    Short(u16),
    Int(u32),
    Long(u64),
    Text(Vec<u8>),
    Blob(Vec<u8>),
    Slots(Vec<Option<Item>>),
}

/// The mathematical value of a field.
pub enum FieldValue {
    Byte(u8),
    Short(u16),
    Int(u32),
    Long(u64),
    Text(Seq<u8>),
    Blob(Seq<u8>),
    Slots(Seq<Option<Item>>),
}

impl View for Field {
    type V = FieldValue;

    open spec fn view(&self) -> FieldValue {
        match self {
            Field::Byte(b) => FieldValue::Byte(*b),
            Field::Short(v) => FieldValue::Short(*v),
            Field::Int(v) => FieldValue::Int(*v),
            Field::Long(v) => FieldValue::Long(*v),
            Field::Text(t) => FieldValue::Text(t@),
            Field::Blob(d) => FieldValue::Blob(d@),
            Field::Slots(s) => FieldValue::Slots(s@),
        }
    }
}

/// A packet: its id and its fields.
#[derive(Clone, Debug)]
pub struct Packet {
    pub id: u8,
    pub fields: Vec<Field>,
}

/// The mathematical value of a packet.
pub struct PacketValue {
    pub id: u8,
    pub fields: Seq<FieldValue>,
}

pub open spec fn field_values(fields: Seq<Field>) -> Seq<FieldValue> {
    fields.map_values(|f: Field| f@)
}

impl View for Packet {
    type V = PacketValue;

    open spec fn view(&self) -> PacketValue {
        PacketValue { id: self.id, fields: field_values(self.fields@) }
    }
}

pub const KEEP_ALIVE: u8 = 0x00;
pub const LOGIN: u8 = 0x01;
pub const HANDSHAKE: u8 = 0x02;
pub const CHAT_MESSAGE: u8 = 0x03;
pub const TIME_UPDATE: u8 = 0x04;
pub const PLAYER_INVENTORY: u8 = 0x05;
pub const SPAWN_POSITION: u8 = 0x06;
pub const PLAYER: u8 = 0x0A;
pub const PLAYER_POSITION: u8 = 0x0B;
pub const PLAYER_LOOK: u8 = 0x0C;
pub const PLAYER_POSITION_AND_LOOK: u8 = 0x0D;
pub const PLAYER_DIGGING: u8 = 0x0E;
pub const ANIMATION: u8 = 0x12;
pub const NAMED_ENTITY_SPAWN: u8 = 0x14;
pub const DESTROY_ENTITY: u8 = 0x1D;
pub const ENTITY: u8 = 0x1E;
pub const ENTITY_RELATIVE_MOVE: u8 = 0x1F;
pub const ENTITY_LOOK: u8 = 0x20;
pub const ENTITY_LOOK_RELATIVE_MOVE: u8 = 0x21;
pub const ENTITY_TELEPORT: u8 = 0x22;
pub const PRE_CHUNK: u8 = 0x32;
pub const MAP_CHUNK: u8 = 0x33;
pub const BLOCK_CHANGE: u8 = 0x35;
pub const KICK_OR_DISCONNECT: u8 = 0xFF;

/// The fields that follow each packet id; `None` for an id that no packet has.
pub open spec fn layout(id: u8) -> Option<Seq<FieldKind>> {
    if id == KEEP_ALIVE {
        Some(seq![])
    } else if id == LOGIN {
        // entity id or protocol version, two names, map seed, dimension
        Some(seq![Int, Text, Text, Long, Byte])
    } else if id == HANDSHAKE || id == CHAT_MESSAGE || id == KICK_OR_DISCONNECT {
        Some(seq![Text])
    } else if id == TIME_UPDATE {
        Some(seq![Long])
    } else if id == PLAYER_INVENTORY {
        Some(seq![Int, Slots])
    } else if id == SPAWN_POSITION {
        Some(seq![Int, Int, Int])
    } else if id == PLAYER {
        Some(seq![Byte])
    } else if id == PLAYER_POSITION {
        Some(seq![Long, Long, Long, Long, Byte])
    } else if id == PLAYER_LOOK {
        Some(seq![Int, Int, Byte])
    } else if id == PLAYER_POSITION_AND_LOOK {
        Some(seq![Long, Long, Long, Long, Int, Int, Byte])
    } else if id == PLAYER_DIGGING {
        Some(seq![Byte, Int, Byte, Int, Byte])
    } else if id == ANIMATION {
        Some(seq![Int, Byte])
    } else if id == NAMED_ENTITY_SPAWN {
        Some(seq![Int, Text, Int, Int, Int, Byte, Byte, Short])
    } else if id == DESTROY_ENTITY || id == ENTITY {
        Some(seq![Int])
    } else if id == ENTITY_RELATIVE_MOVE {
        Some(seq![Int, Byte, Byte, Byte])
    } else if id == ENTITY_LOOK {
        Some(seq![Int, Byte, Byte])
    } else if id == ENTITY_LOOK_RELATIVE_MOVE {
        Some(seq![Int, Byte, Byte, Byte, Byte, Byte])
    } else if id == ENTITY_TELEPORT {
        Some(seq![Int, Int, Int, Int, Byte, Byte])
    } else if id == PRE_CHUNK {
        Some(seq![Int, Int, Byte])
    } else if id == MAP_CHUNK {
        Some(seq![Int, Short, Int, Byte, Byte, Byte, Blob])
    } else if id == BLOCK_CHANGE {
        Some(seq![Int, Byte, Int, Byte, Byte])
    } else {
        None
    }
}

pub open spec fn kind_of(v: FieldValue) -> FieldKind {
    match v {
        FieldValue::Byte(_) => FieldKind::Byte,
        FieldValue::Short(_) => FieldKind::Short,
        FieldValue::Int(_) => FieldKind::Int,
        FieldValue::Long(_) => FieldKind::Long,
        FieldValue::Text(_) => FieldKind::Text,
        FieldValue::Blob(_) => FieldKind::Blob,
        FieldValue::Slots(_) => FieldKind::Slots,
    }
}

pub open spec fn kinds_of(fields: Seq<FieldValue>) -> Seq<FieldKind> {
    fields.map_values(|v: FieldValue| kind_of(v))
}

/// The slot id that marks an empty slot.
pub const EMPTY_SLOT: u16 = 0xFFFF;

pub open spec fn slot_bytes(s: Option<Item>) -> Seq<u8> {
    match s {
        None => u16_bytes(EMPTY_SLOT),
        Some(it) => u16_bytes(it.id) + seq![it.count] + u16_bytes(it.uses_left),
    }
}

pub open spec fn slots_bytes(s: Seq<Option<Item>>) -> Seq<u8>
    decreases s.len(),
{
    if s.len() == 0 {
        seq![]
    } else {
        slots_bytes(s.drop_last()) + slot_bytes(s.last())
    }
}

pub open spec fn field_bytes(v: FieldValue) -> Seq<u8> {
    match v {
        FieldValue::Byte(b) => seq![b],
        FieldValue::Short(x) => u16_bytes(x),
        FieldValue::Int(x) => u32_bytes(x),
        FieldValue::Long(x) => u64_bytes(x),
        FieldValue::Text(t) => u16_bytes(t.len() as u16) + t,
        FieldValue::Blob(d) => u32_bytes(d.len() as u32) + d,
        FieldValue::Slots(s) => u16_bytes(s.len() as u16) + slots_bytes(s),
    }
}

pub open spec fn fields_bytes(fs: Seq<FieldValue>) -> Seq<u8>
    decreases fs.len(),
{
    if fs.len() == 0 {
        seq![]
    } else {
        fields_bytes(fs.drop_last()) + field_bytes(fs.last())
    }
}

/// The bytes of a packet on the wire.
pub open spec fn packet_bytes(p: PacketValue) -> Seq<u8> {
    seq![p.id] + fields_bytes(p.fields)
}

/// A field whose lengths fit their prefixes, and whose slots are not mistaken for empty ones.
pub open spec fn field_fits(v: FieldValue) -> bool {
    match v {
        FieldValue::Text(t) => t.len() <= 0xFFFF,
        FieldValue::Blob(d) => d.len() <= 0x7FFF_FFFF,
        FieldValue::Slots(s) => s.len() <= 0xFFFF && forall|i: int|
            0 <= i < s.len() ==> (#[trigger] s[i] matches Some(it) ==> it.id != EMPTY_SLOT),
        _ => true,
    }
}

/// A packet that can be written: its fields follow its id's layout and fit the wire.
pub open spec fn packet_fits(p: PacketValue) -> bool {
    &&& layout(p.id) == Some(kinds_of(p.fields))
    &&& forall|i: int| 0 <= i < p.fields.len() ==> field_fits(#[trigger] p.fields[i])
}

/// The outcome of reading a value at an offset: the value and the offset after it; or the
/// bytes end first; or a field holds a value that is not allowed.
pub enum Parse<T> {
    Done(T, int),
    Incomplete,
    Invalid,
}

pub open spec fn parse_slot(b: Seq<u8>, i: int) -> Parse<Option<Item>> {
    if i + 2 > b.len() {
        Parse::Incomplete
    } else if u16_at(b, i) == EMPTY_SLOT {
        Parse::Done(None, i + 2)
    } else if i + 5 > b.len() {
        Parse::Incomplete
    } else {
        Parse::Done(
            Some(Item { id: u16_at(b, i), count: b[i + 2], uses_left: u16_at(b, i + 3) }),
            i + 5,
        )
    }
}

pub open spec fn parse_slots(n: nat, b: Seq<u8>, i: int) -> Parse<Seq<Option<Item>>>
    decreases n,
{
    if n == 0 {
        Parse::Done(seq![], i)
    } else {
        match parse_slots((n - 1) as nat, b, i) {
            Parse::Done(s, j) => match parse_slot(b, j) {
                Parse::Done(x, k) => Parse::Done(s.push(x), k),
                Parse::Incomplete => Parse::Incomplete,
                Parse::Invalid => Parse::Invalid,
            },
            Parse::Incomplete => Parse::Incomplete,
            Parse::Invalid => Parse::Invalid,
        }
    }
}

pub open spec fn parse_field(k: FieldKind, b: Seq<u8>, i: int) -> Parse<FieldValue> {
    match k {
        FieldKind::Byte => if i + 1 > b.len() {
            Parse::Incomplete
        } else {
            Parse::Done(FieldValue::Byte(b[i]), i + 1)
        },
        FieldKind::Short => if i + 2 > b.len() {
            Parse::Incomplete
        } else {
            Parse::Done(FieldValue::Short(u16_at(b, i)), i + 2)
        },
        FieldKind::Int => if i + 4 > b.len() {
            Parse::Incomplete
        } else {
            Parse::Done(FieldValue::Int(u32_at(b, i)), i + 4)
        },
        FieldKind::Long => if i + 8 > b.len() {
            Parse::Incomplete
        } else {
            Parse::Done(FieldValue::Long(u64_at(b, i)), i + 8)
        },
        FieldKind::Text => if i + 2 > b.len() {
            Parse::Incomplete
        } else if i + 2 + u16_at(b, i) > b.len() {
            Parse::Incomplete
        } else {
            Parse::Done(
                FieldValue::Text(b.subrange(i + 2, i + 2 + u16_at(b, i))),
                i + 2 + u16_at(b, i),
            )
        },
        FieldKind::Blob => if i + 4 > b.len() {
            Parse::Incomplete
        } else if u32_at(b, i) > 0x7FFF_FFFF {
            Parse::Invalid
        } else if i + 4 + u32_at(b, i) > b.len() {
            Parse::Incomplete
        } else {
            Parse::Done(
                FieldValue::Blob(b.subrange(i + 4, i + 4 + u32_at(b, i))),
                i + 4 + u32_at(b, i),
            )
        },
        FieldKind::Slots => if i + 2 > b.len() {
            Parse::Incomplete
        } else {
            match parse_slots(u16_at(b, i) as nat, b, i + 2) {
                Parse::Done(s, j) => Parse::Done(FieldValue::Slots(s), j),
                Parse::Incomplete => Parse::Incomplete,
                Parse::Invalid => Parse::Invalid,
            }
        },
    }
}

pub open spec fn parse_fields(ks: Seq<FieldKind>, b: Seq<u8>, i: int) -> Parse<Seq<FieldValue>>
    decreases ks.len(),
{
    if ks.len() == 0 {
        Parse::Done(seq![], i)
    } else {
        match parse_fields(ks.drop_last(), b, i) {
            Parse::Done(vs, j) => match parse_field(ks.last(), b, j) {
                Parse::Done(v, k) => Parse::Done(vs.push(v), k),
                Parse::Incomplete => Parse::Incomplete,
                Parse::Invalid => Parse::Invalid,
            },
            Parse::Incomplete => Parse::Incomplete,
            Parse::Invalid => Parse::Invalid,
        }
    }
}

/// The outcome of reading a packet at an offset.
pub enum PacketParse {
    Done(PacketValue, int),
    Incomplete,
    UnknownId(u8),
    Invalid,
}

/// What the bytes from offset `i` on hold: a whole packet and the offset after it; or the
/// bytes end before the packet does; or an unknown id; or a field value that is not allowed.
pub open spec fn parse_packet(b: Seq<u8>, i: int) -> PacketParse {
    if i >= b.len() {
        PacketParse::Incomplete
    } else {
        match layout(b[i]) {
            None => PacketParse::UnknownId(b[i]),
            Some(ks) => match parse_fields(ks, b, i + 1) {
                Parse::Done(vs, j) => PacketParse::Done(PacketValue { id: b[i], fields: vs }, j),
                Parse::Incomplete => PacketParse::Incomplete,
                Parse::Invalid => PacketParse::Invalid,
            },
        }
    }
}

// ---------------------------------------------------------------------------------------
// Lemmas: what was read writes back to the same bytes, and a cut packet reads as incomplete.
// ---------------------------------------------------------------------------------------
proof fn lemma_slot_round_trip(b: Seq<u8>, i: int)
    requires
        0 <= i,
        parse_slot(b, i) is Done,
    ensures
        ({
            let (x, j) = (parse_slot(b, i)->Done_0, parse_slot(b, i)->Done_1);
            &&& i <= j <= b.len()
            &&& slot_bytes(x) == b.subrange(i, j)
            &&& x matches Some(it) ==> it.id != EMPTY_SLOT
        }),
{
    lemma_u16_bytes(b, i);
    if u16_at(b, i) != EMPTY_SLOT {
        lemma_u16_bytes(b, i + 3);
        assert(b.subrange(i, i + 5) =~= b.subrange(i, i + 2) + seq![b[i + 2]] + b.subrange(
            i + 3,
            i + 5,
        ));
    }
}

proof fn lemma_slots_round_trip(n: nat, b: Seq<u8>, i: int)
    requires
        0 <= i <= b.len(),
        parse_slots(n, b, i) is Done,
    ensures
        ({
            let (s, j) = (parse_slots(n, b, i)->Done_0, parse_slots(n, b, i)->Done_1);
            &&& i <= j <= b.len()
            &&& s.len() == n
            &&& slots_bytes(s) == b.subrange(i, j)
            &&& forall|k: int| 0 <= k < s.len() ==> (#[trigger] s[k] matches Some(it) ==> it.id
                != EMPTY_SLOT)
        }),
    decreases n,
{
    if n == 0 {
        assert(b.subrange(i, i) =~= Seq::<u8>::empty());
    } else {
        lemma_slots_round_trip((n - 1) as nat, b, i);
        let (s, j) = (
            parse_slots((n - 1) as nat, b, i)->Done_0,
            parse_slots((n - 1) as nat, b, i)->Done_1,
        );
        lemma_slot_round_trip(b, j);
        let (x, k) = (parse_slot(b, j)->Done_0, parse_slot(b, j)->Done_1);
        assert(s.push(x).drop_last() =~= s);
        assert(b.subrange(i, k) =~= b.subrange(i, j) + b.subrange(j, k));
        let t = s.push(x);
        assert forall|m: int| 0 <= m < t.len() implies (#[trigger] t[m] matches Some(it)
            ==> it.id != EMPTY_SLOT) by {
            if m < s.len() {
                assert(t[m] == s[m]);
            }
        }
    }
}

proof fn lemma_field_round_trip(kd: FieldKind, b: Seq<u8>, i: int)
    requires
        0 <= i <= b.len(),
        parse_field(kd, b, i) is Done,
    ensures
        ({
            let (v, j) = (parse_field(kd, b, i)->Done_0, parse_field(kd, b, i)->Done_1);
            &&& i <= j <= b.len()
            &&& field_bytes(v) == b.subrange(i, j)
            &&& kind_of(v) == kd
            &&& field_fits(v)
        }),
{
    match kd {
        FieldKind::Byte => {
            assert(b.subrange(i, i + 1) =~= seq![b[i]]);
        },
        FieldKind::Short => {
            lemma_u16_bytes(b, i);
        },
        FieldKind::Int => {
            lemma_u32_bytes(b, i);
        },
        FieldKind::Long => {
            lemma_u64_bytes(b, i);
        },
        FieldKind::Text => {
            lemma_u16_bytes(b, i);
            let n = u16_at(b, i);
            let t = b.subrange(i + 2, i + 2 + n);
            assert(t.len() as u16 == n);
            assert(b.subrange(i, i + 2 + n) =~= b.subrange(i, i + 2) + t);
        },
        FieldKind::Blob => {
            lemma_u32_bytes(b, i);
            let n = u32_at(b, i);
            let d = b.subrange(i + 4, i + 4 + n);
            assert(d.len() as u32 == n);
            assert(b.subrange(i, i + 4 + n) =~= b.subrange(i, i + 4) + d);
        },
        FieldKind::Slots => {
            lemma_u16_bytes(b, i);
            let n = u16_at(b, i);
            lemma_slots_round_trip(n as nat, b, i + 2);
            let (s, j) = (
                parse_slots(n as nat, b, i + 2)->Done_0,
                parse_slots(n as nat, b, i + 2)->Done_1,
            );
            assert(s.len() as u16 == n);
            assert(b.subrange(i, j) =~= b.subrange(i, i + 2) + b.subrange(i + 2, j));
        },
    }
}

proof fn lemma_fields_round_trip(ks: Seq<FieldKind>, b: Seq<u8>, i: int)
    requires
        0 <= i <= b.len(),
        parse_fields(ks, b, i) is Done,
    ensures
        ({
            let (vs, j) = (parse_fields(ks, b, i)->Done_0, parse_fields(ks, b, i)->Done_1);
            &&& i <= j <= b.len()
            &&& fields_bytes(vs) == b.subrange(i, j)
            &&& kinds_of(vs) == ks
            &&& forall|m: int| 0 <= m < vs.len() ==> field_fits(#[trigger] vs[m])
        }),
    decreases ks.len(),
{
    if ks.len() == 0 {
        assert(b.subrange(i, i) =~= Seq::<u8>::empty());
        assert(kinds_of(seq![]) =~= ks);
    } else {
        lemma_fields_round_trip(ks.drop_last(), b, i);
        let (vs, j) = (
            parse_fields(ks.drop_last(), b, i)->Done_0,
            parse_fields(ks.drop_last(), b, i)->Done_1,
        );
        lemma_field_round_trip(ks.last(), b, j);
        let (v, k) = (parse_field(ks.last(), b, j)->Done_0, parse_field(ks.last(), b, j)->Done_1);
        let t = vs.push(v);
        assert(t.drop_last() =~= vs);
        assert(b.subrange(i, k) =~= b.subrange(i, j) + b.subrange(j, k));
        assert(kinds_of(t) =~= kinds_of(vs).push(kind_of(v)));
        assert(ks =~= ks.drop_last().push(ks.last()));
        assert forall|m: int| 0 <= m < t.len() implies field_fits(#[trigger] t[m]) by {
            if m < vs.len() {
                assert(t[m] == vs[m]);
            }
        }
    }
}

/// Every complete packet writes back to exactly the bytes it was read from: when the bytes
/// from `i` on hold a whole packet ending at `j`, that packet can be written, and its bytes
/// are `b[i..j]`.
pub proof fn lemma_packet_round_trip(b: Seq<u8>, i: int)
    requires
        0 <= i,
        parse_packet(b, i) is Done,
    ensures
        ({
            let (p, j) = (parse_packet(b, i)->Done_0, parse_packet(b, i)->Done_1);
            &&& i < j <= b.len()
            &&& packet_fits(p)
            &&& packet_bytes(p) == b.subrange(i, j)
        }),
{
    let ks = layout(b[i])->Some_0;
    lemma_fields_round_trip(ks, b, i + 1);
    let (vs, j) = (parse_fields(ks, b, i + 1)->Done_0, parse_fields(ks, b, i + 1)->Done_1);
    assert(b.subrange(i, j) =~= seq![b[i]] + b.subrange(i + 1, j));
}

proof fn lemma_slot_prefix(b: Seq<u8>, i: int, m: int)
    requires
        0 <= i <= m <= b.len(),
        parse_slot(b, i) is Done,
    ensures
        m < parse_slot(b, i)->Done_1 ==> parse_slot(b.take(m), i) is Incomplete,
        m >= parse_slot(b, i)->Done_1 ==> parse_slot(b.take(m), i) == parse_slot(b, i),
{
    let c = b.take(m);
    if i + 2 <= m {
        assert(u16_at(c, i) == u16_at(b, i));
    }
    if i + 5 <= m {
        assert(u16_at(c, i + 3) == u16_at(b, i + 3));
        assert(c[i + 2] == b[i + 2]);
    }
}

proof fn lemma_slots_prefix(n: nat, b: Seq<u8>, i: int, m: int)
    requires
        0 <= i <= m <= b.len(),
        parse_slots(n, b, i) is Done,
    ensures
        m < parse_slots(n, b, i)->Done_1 ==> parse_slots(n, b.take(m), i) is Incomplete,
        m >= parse_slots(n, b, i)->Done_1 ==> parse_slots(n, b.take(m), i) == parse_slots(
            n,
            b,
            i,
        ),
    decreases n,
{
    if n > 0 {
        let n1 = (n - 1) as nat;
        lemma_slots_prefix(n1, b, i, m);
        lemma_slots_round_trip(n1, b, i);
        let j = parse_slots(n1, b, i)->Done_1;
        lemma_slot_round_trip(b, j);
        if m >= j {
            lemma_slot_prefix(b, j, m);
        }
    }
}

proof fn lemma_field_prefix(kd: FieldKind, b: Seq<u8>, i: int, m: int)
    requires
        0 <= i <= m <= b.len(),
        parse_field(kd, b, i) is Done,
    ensures
        m < parse_field(kd, b, i)->Done_1 ==> parse_field(kd, b.take(m), i) is Incomplete,
        m >= parse_field(kd, b, i)->Done_1 ==> parse_field(kd, b.take(m), i) == parse_field(
            kd,
            b,
            i,
        ),
{
    let c = b.take(m);
    match kd {
        FieldKind::Byte => {
            if i + 1 <= m {
                assert(c[i] == b[i]);
            }
        },
        FieldKind::Short => {
            if i + 2 <= m {
                assert(u16_at(c, i) == u16_at(b, i));
            }
        },
        FieldKind::Int => {
            if i + 4 <= m {
                assert(u32_at(c, i) == u32_at(b, i));
            }
        },
        FieldKind::Long => {
            if i + 8 <= m {
                assert(u64_at(c, i) == u64_at(b, i));
            }
        },
        FieldKind::Text => {
            if i + 2 <= m {
                let n = u16_at(b, i);
                assert(u16_at(c, i) == n);
                if i + 2 + n <= m {
                    assert(c.subrange(i + 2, i + 2 + n) =~= b.subrange(i + 2, i + 2 + n));
                }
            }
        },
        FieldKind::Blob => {
            if i + 4 <= m {
                let n = u32_at(b, i);
                assert(u32_at(c, i) == n);
                if i + 4 + n <= m {
                    assert(c.subrange(i + 4, i + 4 + n) =~= b.subrange(i + 4, i + 4 + n));
                }
            }
        },
        FieldKind::Slots => {
            lemma_slots_round_trip(u16_at(b, i) as nat, b, i + 2);
            if i + 2 <= m {
                let n = u16_at(b, i);
                assert(u16_at(c, i) == n);
                lemma_slots_prefix(n as nat, b, i + 2, m);
            }
        },
    }
}

proof fn lemma_fields_prefix(ks: Seq<FieldKind>, b: Seq<u8>, i: int, m: int)
    requires
        0 <= i <= m <= b.len(),
        parse_fields(ks, b, i) is Done,
    ensures
        m < parse_fields(ks, b, i)->Done_1 ==> parse_fields(ks, b.take(m), i) is Incomplete,
        m >= parse_fields(ks, b, i)->Done_1 ==> parse_fields(ks, b.take(m), i) == parse_fields(
            ks,
            b,
            i,
        ),
    decreases ks.len(),
{
    if ks.len() > 0 {
        lemma_fields_prefix(ks.drop_last(), b, i, m);
        lemma_fields_round_trip(ks.drop_last(), b, i);
        let j = parse_fields(ks.drop_last(), b, i)->Done_1;
        lemma_field_round_trip(ks.last(), b, j);
        if m >= j {
            lemma_field_prefix(ks.last(), b, j, m);
        }
    }
}

/// A packet cut short reads as incomplete: when the bytes from `i` on hold a whole packet
/// ending at `j`, the bytes up to any `m` with `i <= m < j` do not yet hold a packet.
pub proof fn lemma_strict_prefix_incomplete(b: Seq<u8>, i: int, m: int)
    requires
        0 <= i <= m,
        parse_packet(b, i) matches PacketParse::Done(_, j) && m < j,
    ensures
        parse_packet(b.take(m), i) is Incomplete,
{
    lemma_packet_round_trip(b, i);
    if m > i {
        let ks = layout(b[i])->Some_0;
        assert(b.take(m)[i] == b[i]);
        lemma_fields_prefix(ks, b, i + 1, m);
    }
}

proof fn lemma_fields_error_persists(ks: Seq<FieldKind>, b: Seq<u8>, i: int, n: int)
    requires
        0 <= n <= ks.len(),
        !(parse_fields(ks.take(n), b, i) is Done),
    ensures
        parse_fields(ks, b, i) == parse_fields(ks.take(n), b, i),
    decreases ks.len() - n,
{
    if n < ks.len() {
        let t = ks.take(n + 1);
        assert(t.drop_last() =~= ks.take(n));
        lemma_fields_error_persists(ks, b, i, n + 1);
    } else {
        assert(ks.take(n) =~= ks);
    }
}

// ---------------------------------------------------------------------------------------
// The codec.
// ---------------------------------------------------------------------------------------
/// The fields that follow `id`, or `None` when no packet has that id.
pub fn packet_layout(id: u8) -> (r: Option<Vec<FieldKind>>)
    ensures
        r is None <==> layout(id) is None,
        r matches Some(v) ==> layout(id) == Some(v@),
{
    let r: Option<Vec<FieldKind>> = if id == KEEP_ALIVE {
        Some(vec![])
    } else if id == LOGIN {
        Some(vec![Int, Text, Text, Long, Byte])
    } else if id == HANDSHAKE || id == CHAT_MESSAGE || id == KICK_OR_DISCONNECT {
        Some(vec![Text])
    } else if id == TIME_UPDATE {
        Some(vec![Long])
    } else if id == PLAYER_INVENTORY {
        Some(vec![Int, Slots])
    } else if id == SPAWN_POSITION {
        Some(vec![Int, Int, Int])
    } else if id == PLAYER {
        Some(vec![Byte])
    } else if id == PLAYER_POSITION {
        Some(vec![Long, Long, Long, Long, Byte])
    } else if id == PLAYER_LOOK {
        Some(vec![Int, Int, Byte])
    } else if id == PLAYER_POSITION_AND_LOOK {
        Some(vec![Long, Long, Long, Long, Int, Int, Byte])
    } else if id == PLAYER_DIGGING {
        Some(vec![Byte, Int, Byte, Int, Byte])
    } else if id == ANIMATION {
        Some(vec![Int, Byte])
    } else if id == NAMED_ENTITY_SPAWN {
        Some(vec![Int, Text, Int, Int, Int, Byte, Byte, Short])
    } else if id == DESTROY_ENTITY || id == ENTITY {
        Some(vec![Int])
    } else if id == ENTITY_RELATIVE_MOVE {
        Some(vec![Int, Byte, Byte, Byte])
    } else if id == ENTITY_LOOK {
        Some(vec![Int, Byte, Byte])
    } else if id == ENTITY_LOOK_RELATIVE_MOVE {
        Some(vec![Int, Byte, Byte, Byte, Byte, Byte])
    } else if id == ENTITY_TELEPORT {
        Some(vec![Int, Int, Int, Int, Byte, Byte])
    } else if id == PRE_CHUNK {
        Some(vec![Int, Int, Byte])
    } else if id == MAP_CHUNK {
        Some(vec![Int, Short, Int, Byte, Byte, Byte, Blob])
    } else if id == BLOCK_CHANGE {
        Some(vec![Int, Byte, Int, Byte, Byte])
    } else {
        None
    };
    proof {
        if r is Some {
            assert(r->Some_0@ =~= layout(id)->Some_0);
        }
    }
    r
}

fn read_slot(src: &[u8], pos: &mut usize) -> (r: Result<Option<Item>, PacketError>)
    ensures
        match parse_slot(src@, *old(pos) as int) {
            Parse::Done(x, j) => r == Ok::<Option<Item>, PacketError>(x) && *final(pos) == j,
            _ => r == Err::<Option<Item>, PacketError>(PacketError::NotEnoughBytes),
        },
{
    let start = *pos;
    let id = get_u16(src, pos)?;
    if id == EMPTY_SLOT {
        return Ok(None);
    }
    let count = match get_u8(src, pos) {
        Ok(c) => c,
        Err(e) => {
            return Err(e);
        },
    };
    let uses_left = match get_u16(src, pos) {
        Ok(u) => u,
        Err(e) => {
            return Err(e);
        },
    };
    Ok(Some(Item { id, count, uses_left }))
}

fn read_slots(src: &[u8], pos: &mut usize, n: u16) -> (r: Result<Vec<Option<Item>>, PacketError>)
    ensures
        match parse_slots(n as nat, src@, *old(pos) as int) {
            Parse::Done(s, j) => (r matches Ok(v) && v@ == s) && *final(pos) == j,
            _ => r == Err::<Vec<Option<Item>>, PacketError>(PacketError::NotEnoughBytes),
        },
{
    let ghost start = *pos as int;
    let mut items: Vec<Option<Item>> = Vec::new();
    let mut k: u16 = 0;
    while k < n
        invariant
            k <= n,
            start == *old(pos) as int,
            parse_slots(k as nat, src@, start) == Parse::Done(items@, *pos as int),
        decreases n - k,
    {
        let ghost at = *pos as int;
        let item = read_slot(src, pos);
        match item {
            Ok(x) => {
                items.push(x);
            },
            Err(e) => {
                proof {
                    assert(!(parse_slot(src@, at) is Done));
                    assert(parse_slots((k + 1) as nat, src@, start) is Incomplete);
                    lemma_slots_error_persists(n as nat, (k + 1) as nat, src@, start);
                }
                return Err(e);
            },
        }
        k = k + 1;
    }
    Ok(items)
}

proof fn lemma_slots_never_invalid(n: nat, b: Seq<u8>, i: int)
    ensures
        !(parse_slots(n, b, i) is Invalid),
    decreases n,
{
    if n > 0 {
        lemma_slots_never_invalid((n - 1) as nat, b, i);
    }
}

proof fn lemma_slots_error_persists(n: nat, k: nat, b: Seq<u8>, i: int)
    requires
        k <= n,
        !(parse_slots(k, b, i) is Done),
    ensures
        parse_slots(n, b, i) == parse_slots(k, b, i),
    decreases n - k,
{
    if k < n {
        lemma_slots_error_persists(n, k + 1, b, i);
    }
}

fn read_field(src: &[u8], pos: &mut usize, kd: FieldKind) -> (r: Result<Field, PacketError>)
    ensures
        match parse_field(kd, src@, *old(pos) as int) {
            Parse::Done(v, j) => (r matches Ok(f) && f@ == v) && *final(pos) == j,
            Parse::Incomplete => r == Err::<Field, PacketError>(PacketError::NotEnoughBytes),
            Parse::Invalid => r matches Err(PacketError::InvalidInput(_)),
        },
{
    match kd {
        FieldKind::Byte => {
            let v = get_u8(src, pos)?;
            Ok(Field::Byte(v))
        },
        FieldKind::Short => {
            let v = get_u16(src, pos)?;
            Ok(Field::Short(v))
        },
        FieldKind::Int => {
            let v = get_u32(src, pos)?;
            Ok(Field::Int(v))
        },
        FieldKind::Long => {
            let v = get_u64(src, pos)?;
            Ok(Field::Long(v))
        },
        FieldKind::Text => {
            let n = get_u16(src, pos)?;
            let t = get_bytes(src, pos, n as usize)?;
            Ok(Field::Text(t))
        },
        FieldKind::Blob => {
            let n = get_u32(src, pos)?;
            if n > 0x7FFF_FFFF {
                return Err(PacketError::InvalidInput(String::from_str("negative length")));
            }
            let d = get_bytes(src, pos, n as usize)?;
            Ok(Field::Blob(d))
        },
        FieldKind::Slots => {
            let n = get_u16(src, pos)?;
            proof {
                lemma_slots_never_invalid(n as nat, src@, *pos as int);
            }
            let s = read_slots(src, pos, n)?;
            Ok(Field::Slots(s))
        },
    }
}

/// Reads one packet at the cursor.
///
/// On success the cursor stands after the packet. On any error it has not moved: in
/// particular a packet whose bytes have not all arrived yet gives `NotEnoughBytes`.
pub fn deserialize(src: &[u8], pos: &mut usize) -> (r: Result<Packet, PacketError>)
    ensures
        match parse_packet(src@, *old(pos) as int) {
            PacketParse::Done(p, j) => (r matches Ok(q) && q@ == p) && *final(pos) == j,
            PacketParse::Incomplete => r == Err::<Packet, PacketError>(
                PacketError::NotEnoughBytes,
            ) && *final(pos) == *old(pos),
            PacketParse::UnknownId(id) => r == Err::<Packet, PacketError>(
                PacketError::InvalidPacketID(id),
            ) && *final(pos) == *old(pos),
            PacketParse::Invalid => (r matches Err(PacketError::InvalidInput(_))) && *final(pos)
                == *old(pos),
        },
{
    let start = *pos;
    let id = get_u8(src, pos)?;
    let kinds = match packet_layout(id) {
        Some(k) => k,
        None => {
            *pos = start;
            return Err(PacketError::InvalidPacketID(id));
        },
    };
    let ghost ks = kinds@;
    let ghost b = src@;
    let mut fields: Vec<Field> = Vec::new();
    let mut n: usize = 0;
    proof {
        assert(ks.take(0) =~= Seq::<FieldKind>::empty());
        assert(field_values(fields@) =~= Seq::<FieldValue>::empty());
    }
    while n < kinds.len()
        invariant
            kinds@ == ks,
            src@ == b,
            start == *old(pos),
            layout(id) == Some(ks),
            id == b[start as int],
            start < b.len(),
            n <= ks.len(),
            parse_fields(ks.take(n as int), b, start + 1) == Parse::Done(
                field_values(fields@),
                *pos as int,
            ),
        decreases ks.len() - n,
    {
        let ghost t = ks.take(n as int + 1);
        proof {
            assert(t.drop_last() =~= ks.take(n as int));
            assert(t.last() == ks[n as int]);
        }
        let ghost at = *pos as int;
        match read_field(src, pos, kinds[n]) {
            Ok(f) => {
                let ghost before = fields@;
                fields.push(f);
                proof {
                    assert(field_values(fields@) =~= field_values(before).push(f@));
                }
            },
            Err(e) => {
                proof {
                    assert(!(parse_field(ks[n as int], b, at) is Done));
                    assert(!(parse_fields(t, b, start + 1) is Done));
                    lemma_fields_error_persists(ks, b, start + 1, n as int + 1);
                }
                *pos = start;
                return Err(e);
            },
        }
        n = n + 1;
    }
    proof {
        assert(ks.take(ks.len() as int) =~= ks);
    }
    Ok(Packet { id, fields })
}

fn field_kind(f: &Field) -> (k: FieldKind)
    ensures
        k == kind_of(f@),
{
    match f {
        Field::Byte(_) => FieldKind::Byte,
        Field::Short(_) => FieldKind::Short,
        Field::Int(_) => FieldKind::Int,
        Field::Long(_) => FieldKind::Long,
        Field::Text(_) => FieldKind::Text,
        Field::Blob(_) => FieldKind::Blob,
        Field::Slots(_) => FieldKind::Slots,
    }
}

fn slots_fit(s: &Vec<Option<Item>>) -> (r: bool)
    ensures
        r == field_fits(FieldValue::Slots(s@)),
{
    if s.len() > 0xFFFF {
        return false;
    }
    let mut i: usize = 0;
    while i < s.len()
        invariant
            i <= s@.len(),
            s@.len() <= 0xFFFF,
            forall|k: int|
                0 <= k < i ==> (#[trigger] s@[k] matches Some(it) ==> it.id != EMPTY_SLOT),
        decreases s@.len() - i,
    {
        if let Some(it) = s[i] {
            if it.id == EMPTY_SLOT {
                assert(s@[i as int] == Some(it));
                return false;
            }
        }
        i = i + 1;
    }
    true
}

fn fits(f: &Field) -> (r: bool)
    ensures
        r == field_fits(f@),
{
    match f {
        Field::Text(t) => t.len() <= 0xFFFF,
        Field::Blob(d) => d.len() <= 0x7FFF_FFFF,
        Field::Slots(s) => slots_fit(s),
        _ => true,
    }
}

/// Whether `p` can be written: its fields follow its id's layout and fit the wire.
pub fn can_serialize(p: &Packet) -> (r: bool)
    ensures
        r == packet_fits(p@),
{
    let kinds = match packet_layout(p.id) {
        Some(k) => k,
        None => {
            return false;
        },
    };
    if kinds.len() != p.fields.len() {
        proof {
            assert(kinds_of(p@.fields).len() == p.fields@.len());
        }
        return false;
    }
    let mut i: usize = 0;
    while i < kinds.len()
        invariant
            kinds@.len() == p.fields@.len(),
            layout(p.id) == Some(kinds@),
            i <= kinds@.len(),
            forall|k: int|
                0 <= k < i ==> kinds@[k] == kind_of(#[trigger] p.fields@[k]@) && field_fits(
                    p.fields@[k]@,
                ),
        decreases kinds@.len() - i,
    {
        if field_kind(&p.fields[i]) != kinds[i] || !fits(&p.fields[i]) {
            proof {
                assert(kinds_of(p@.fields)[i as int] == kind_of(p.fields@[i as int]@));
                assert(p@.fields[i as int] == p.fields@[i as int]@);
            }
            return false;
        }
        i = i + 1;
    }
    proof {
        assert(kinds_of(p@.fields) =~= kinds@);
        assert forall|k: int| 0 <= k < p@.fields.len() implies field_fits(
            #[trigger] p@.fields[k],
        ) by {
            assert(p@.fields[k] == p.fields@[k]@);
        }
    }
    true
}

fn write_field(out: &mut Vec<u8>, f: &Field)
    requires
        field_fits(f@),
    ensures
        final(out)@ == old(out)@ + field_bytes(f@),
{
    let ghost start = out@;
    match f {
        Field::Byte(b) => {
            put_u8(out, *b);
            assert(out@ =~= start + field_bytes(f@));
        },
        Field::Short(v) => put_u16(out, *v),
        Field::Int(v) => put_u32(out, *v),
        Field::Long(v) => put_u64(out, *v),
        Field::Text(t) => {
            put_u16(out, t.len() as u16);
            put_bytes(out, t.as_slice());
            assert(out@ =~= start + field_bytes(f@));
        },
        Field::Blob(d) => {
            put_u32(out, d.len() as u32);
            put_bytes(out, d.as_slice());
            assert(out@ =~= start + field_bytes(f@));
        },
        Field::Slots(s) => {
            put_u16(out, s.len() as u16);
            let ghost mid = out@;
            let mut i: usize = 0;
            while i < s.len()
                invariant
                    i <= s@.len(),
                    out@ == mid + slots_bytes(s@.take(i as int)),
                decreases s@.len() - i,
            {
                let ghost before = out@;
                match s[i] {
                    None => put_u16(out, EMPTY_SLOT),
                    Some(it) => {
                        put_u16(out, it.id);
                        put_u8(out, it.count);
                        put_u16(out, it.uses_left);
                    },
                }
                proof {
                    let t = s@.take(i as int + 1);
                    assert(t.drop_last() =~= s@.take(i as int));
                    assert(out@ =~= before + slot_bytes(s@[i as int]));
                }
                i = i + 1;
            }
            proof {
                assert(s@.take(s@.len() as int) =~= s@);
                assert(out@ =~= start + field_bytes(f@));
            }
        },
    }
}

/// Writes `p`: its id, then its fields.
///
/// Fails with `InvalidInput` exactly when the fields do not follow the id's layout or do not
/// fit the wire (text over 65535 bytes, a blob over 2^31 - 1 bytes, over 65535 slots, or an
/// item with the empty-slot id).
pub fn serialize(p: &Packet) -> (r: Result<Vec<u8>, PacketError>)
    ensures
        packet_fits(p@) ==> (r matches Ok(v) && v@ == packet_bytes(p@)),
        !packet_fits(p@) ==> (r matches Err(PacketError::InvalidInput(_))),
{
    if !can_serialize(p) {
        return Err(PacketError::InvalidInput(String::from_str("packet does not fit its layout")));
    }
    let mut out: Vec<u8> = Vec::new();
    out.push(p.id);
    let mut i: usize = 0;
    while i < p.fields.len()
        invariant
            packet_fits(p@),
            i <= p.fields@.len(),
            out@ == seq![p.id] + fields_bytes(field_values(p.fields@).take(i as int)),
        decreases p.fields@.len() - i,
    {
        proof {
            assert(p@.fields[i as int] == p.fields@[i as int]@);
        }
        let ghost before = out@;
        write_field(&mut out, &p.fields[i]);
        proof {
            let vs = field_values(p.fields@);
            let t = vs.take(i as int + 1);
            assert(t.drop_last() =~= vs.take(i as int));
            assert(t.last() == p.fields@[i as int]@);
            assert(out@ =~= seq![p.id] + fields_bytes(t));
        }
        i = i + 1;
    }
    proof {
        assert(field_values(p.fields@).take(p.fields@.len() as int) =~= field_values(p.fields@));
    }
    Ok(out)
}

// ---------------------------------------------------------------------------------------
// Reading the fields of a packet by position.
// ---------------------------------------------------------------------------------------
pub open spec fn byte_field(p: PacketValue, i: int) -> u8 {
    match p.fields[i] {
        FieldValue::Byte(v) => v,
        _ => 0,
    }
}

pub open spec fn int_field(p: PacketValue, i: int) -> u32 {
    match p.fields[i] {
        FieldValue::Int(v) => v,
        _ => 0,
    }
}

pub open spec fn long_field(p: PacketValue, i: int) -> u64 {
    match p.fields[i] {
        FieldValue::Long(v) => v,
        _ => 0,
    }
}

pub open spec fn text_field(p: PacketValue, i: int) -> Seq<u8> {
    match p.fields[i] {
        FieldValue::Text(t) => t,
        _ => seq![],
    }
}

/// The byte at field `i` (zero when that field is not a byte).
pub fn get_byte(p: &Packet, i: usize) -> (r: u8)
    requires
        i < p.fields@.len(),
    ensures
        r == byte_field(p@, i as int),
{
    match &p.fields[i] {
        Field::Byte(v) => *v,
        _ => 0,
    }
}

/// The four-byte value at field `i` (zero when that field is not one).
pub fn get_int(p: &Packet, i: usize) -> (r: u32)
    requires
        i < p.fields@.len(),
    ensures
        r == int_field(p@, i as int),
{
    match &p.fields[i] {
        Field::Int(v) => *v,
        _ => 0,
    }
}

/// The eight-byte value at field `i` (zero when that field is not one).
pub fn get_long(p: &Packet, i: usize) -> (r: u64)
    requires
        i < p.fields@.len(),
    ensures
        r == long_field(p@, i as int),
{
    match &p.fields[i] {
        Field::Long(v) => *v,
        _ => 0,
    }
}

/// The text at field `i`, decoded lossily (empty when that field is not text).
pub fn get_text(p: &Packet, i: usize) -> (r: String)
    requires
        i < p.fields@.len(),
    ensures
        r@ == lossy_text(text_field(p@, i as int)),
{
    match &p.fields[i] {
        Field::Text(t) => text_from_utf8_lossy(t.as_slice()),
        _ => {
            let empty: Vec<u8> = Vec::new();
            assert(empty@ =~= seq![]);
            text_from_utf8_lossy(empty.as_slice())
        },
    }
}

} // verus!
