//! Per-player state: name, inventory, the chunks and players it sees, digging, and its
//! position and look.
//!
//! Coordinates and angles are carried as the bit patterns of the client's `f64` and `f32`
//! values: the logic here moves them and never computes with them.
use crate::packet::{
    int_field, FieldValue, Packet, PacketError, PacketValue, PLAYER_INVENTORY, get_int,
};
use crate::event::{Face, PlayerPositionAndLookEvent};
use crate::to_client::player_inventory;
use vstd::prelude::*;
use vstd::slice::slice_to_vec;

verus! {

/// One stack of items in an inventory slot.
#[derive(Clone, Copy, Debug, PartialEq, Eq, Structural)]
pub struct Item {
    pub id: u16,
    pub count: u8,
    pub uses_left: u16,
}

/// The player's name.
#[derive(Clone, Debug)]
pub struct Named {
    pub name: String,
}

/// `N` inventory slots, each empty or holding a stack.
pub struct InventoryArea<const N: usize> {
    pub items: Vec<Option<Item>>,
}

impl<const N: usize> View for InventoryArea<N> {
    type V = Seq<Option<Item>>;

    open spec fn view(&self) -> Seq<Option<Item>> {
        self.items@
    }
}

impl<const N: usize> InventoryArea<N> {
    /// The area holds exactly `N` slots.
    pub open spec fn wf(&self) -> bool {
        self.items@.len() == N
    }

    /// `N` empty slots.
    pub fn new() -> (r: Self)
        ensures
            r.wf(),
            r@ == Seq::new(N as nat, |i: int| None::<Item>),
    {
        let mut items: Vec<Option<Item>> = Vec::new();
        while items.len() < N
            invariant
                items@.len() <= N,
                forall|i: int| 0 <= i < items@.len() ==> items@[i] is None,
            decreases N - items@.len(),
        {
            items.push(None);
        }
        let r = Self { items };
        assert(r@ =~= Seq::new(N as nat, |i: int| None::<Item>));
        r
    }

    /// `N` slots, the first holding 64 of item 1 when there is a first.
    pub fn create_with_data() -> (r: Self)
        ensures
            r.wf(),
            N > 0 ==> r@[0] == Some(Item { id: 1, count: 64, uses_left: 0 }),
            forall|i: int| 0 < i < N ==> r@[i] is None,
    {
        let mut s = Self::new();
        if N > 0 {
            s.items.set(0, Some(Item { id: 1, count: 64, uses_left: 0 }));
        }
        s
    }

    /// The slots with the first of `items` written over them, as far as both reach.
    pub fn overwrite(&mut self, items: &Vec<Option<Item>>)
        requires
            old(self).wf(),
        ensures
            final(self).wf(),
            final(self)@ == overlay(old(self)@, items@),
    {
        let mut i: usize = 0;
        let ghost start = self@;
        while i < N && i < items.len()
            invariant
                self.items@.len() == N,
                start.len() == N,
                i <= N,
                self@ =~= Seq::new(
                    N as nat,
                    |k: int|
                        if k < i && k < items@.len() {
                            items@[k]
                        } else {
                            start[k]
                        },
                ),
            decreases N - i,
        {
            self.items.set(i, items[i]);
            i = i + 1;
        }
        assert(self@ =~= overlay(start, items@));
    }

    fn slots(&self) -> (r: Vec<Option<Item>>)
        ensures
            r@ == self@,
    {
        slice_to_vec(self.items.as_slice())
    }
}

/// `area` with `items[i]` in slot `i` for every `i` below both lengths.
pub open spec fn overlay(area: Seq<Option<Item>>, items: Seq<Option<Item>>) -> Seq<Option<Item>> {
    Seq::new(area.len(), |i: int| if i < items.len() { items[i] } else { area[i] })
}

pub const MAIN_INVENTORY: i32 = -1;
pub const ARMOR_INVENTORY: i32 = -2;
pub const CRAFTING_INVENTORY: i32 = -3;

/// The three inventories of a player: main (36 slots), armor (4) and crafting (4).
pub struct Inventory {
    pub main: InventoryArea<36>,
    pub armor: InventoryArea<4>,
    pub crafting: InventoryArea<4>,
}

pub struct InventoryView {
    pub main: Seq<Option<Item>>,
    pub armor: Seq<Option<Item>>,
    pub crafting: Seq<Option<Item>>,
}

impl View for Inventory {
    type V = InventoryView;

    open spec fn view(&self) -> InventoryView {
        InventoryView { main: self.main@, armor: self.armor@, crafting: self.crafting@ }
    }
}

/// The slots of the inventory that `inventory_type` names, if it names one.
pub open spec fn area_of(inv: InventoryView, inventory_type: i32) -> Option<Seq<Option<Item>>> {
    if inventory_type == MAIN_INVENTORY {
        Some(inv.main)
    } else if inventory_type == ARMOR_INVENTORY {
        Some(inv.armor)
    } else if inventory_type == CRAFTING_INVENTORY {
        Some(inv.crafting)
    } else {
        None
    }
}

impl Inventory {
    /// Each area holds its number of slots.
    pub open spec fn wf(&self) -> bool {
        self.main.wf() && self.armor.wf() && self.crafting.wf()
    }

    /// A new player's inventory: 64 of item 1 in the first main slot, the rest empty.
    pub fn new() -> (r: Self)
        ensures
            r.wf(),
            r@.main[0] == Some(Item { id: 1, count: 64, uses_left: 0 }),
            forall|i: int| 0 < i < 36 ==> r@.main[i] is None,
            r@.armor == Seq::new(4, |i: int| None::<Item>),
            r@.crafting == Seq::new(4, |i: int| None::<Item>),
    {
        Self {
            main: InventoryArea::create_with_data(),
            armor: InventoryArea::new(),
            crafting: InventoryArea::new(),
        }
    }

    /// Takes in the slots that a client sent: the inventory that the packet's type names gets
    /// the packet's items in its first slots (as many as both hold). A packet of another id, or
    /// of a type that names no inventory, changes nothing.
    pub fn update_from_raw(&mut self, packet: &Packet)
        requires
            old(self).wf(),
        ensures
            final(self).wf(),
            ({
                let p = packet@;
                let t = int_field(p, 0) as i32;
                if p.id == PLAYER_INVENTORY && p.fields.len() == 2 && p.fields[1] is Slots
                    && area_of(old(self)@, t) is Some {
                    let items = p.fields[1]->Slots_0;
                    &&& final(self)@.main == (if t == MAIN_INVENTORY {
                        overlay(old(self)@.main, items)
                    } else {
                        old(self)@.main
                    })
                    &&& final(self)@.armor == (if t == ARMOR_INVENTORY {
                        overlay(old(self)@.armor, items)
                    } else {
                        old(self)@.armor
                    })
                    &&& final(self)@.crafting == (if t == CRAFTING_INVENTORY {
                        overlay(old(self)@.crafting, items)
                    } else {
                        old(self)@.crafting
                    })
                } else {
                    final(self)@ == old(self)@
                }
            }),
    {
        if packet.id != PLAYER_INVENTORY || packet.fields.len() != 2 {
            return;
        }
        let t = get_int(packet, 0) as i32;
        proof {
            assert(packet@.fields[1] == packet.fields@[1]@);
        }
        if let crate::packet::Field::Slots(items) = &packet.fields[1] {
            if t == MAIN_INVENTORY {
                self.main.overwrite(items);
            } else if t == ARMOR_INVENTORY {
                self.armor.overwrite(items);
            } else if t == CRAFTING_INVENTORY {
                self.crafting.overwrite(items);
            }
        }
    }

    /// The packet that shows the client the inventory that `inventory_type` names; an
    /// `InvalidInput` error for a type that names none.
    pub fn to_raw_packet(&self, inventory_type: i32) -> (r: Result<Packet, PacketError>)
        ensures
            match area_of(self@, inventory_type) {
                Some(items) => r matches Ok(p) && p@ == (PacketValue {
                    id: PLAYER_INVENTORY,
                    fields: seq![FieldValue::Int(inventory_type as u32), FieldValue::Slots(items)],
                }),
                None => r matches Err(PacketError::InvalidInput(_)),
            },
    {
        let items = if inventory_type == MAIN_INVENTORY {
            self.main.slots()
        } else if inventory_type == ARMOR_INVENTORY {
            self.armor.slots()
        } else if inventory_type == CRAFTING_INVENTORY {
            self.crafting.slots()
        } else {
            return Err(PacketError::InvalidInput(String::from_str("Invalid inventory type")));
        };
        Ok(player_inventory(inventory_type, items))
    }
}

/// Where a player stands: `f64` bit patterns of its coordinates and eye height.
#[derive(Clone, Copy, Debug, PartialEq, Eq, Structural)]
pub struct Position {
    pub x: u64,
    pub y: u64,
    pub z: u64,
    pub stance: u64,
    pub on_ground: bool,
}

/// Where a player stood before its last move.
#[derive(Clone, Copy, Debug, PartialEq, Eq, Structural)]
pub struct PreviousPosition {
    pub x: u64,
    pub y: u64,
    pub z: u64,
    pub stance: u64,
    pub on_ground: bool,
}

/// Where a player looks: `f32` bit patterns of its yaw and pitch, in degrees.
#[derive(Clone, Copy, Debug, PartialEq, Eq, Structural)]
pub struct Look {
    pub yaw: u32,
    pub pitch: u32,
}

/// A player's movement state.
#[derive(Clone, Copy, Debug, PartialEq, Eq, Structural)]
pub struct Movement {
    pub position: Position,
    pub previous: PreviousPosition,
    pub look: Look,
}

pub open spec fn previous_of(p: Position) -> PreviousPosition {
    PreviousPosition { x: p.x, y: p.y, z: p.z, stance: p.stance, on_ground: p.on_ground }
}

/// The movement state of player `entity_id` after `event`: a position event first keeps the
/// current position as the previous one, then takes the new coordinates; a look event takes
/// the new angles. Events of other players change nothing.
pub open spec fn moved(m: Movement, entity_id: u32, event: PlayerPositionAndLookEvent) -> Movement {
    match event {
        PlayerPositionAndLookEvent::PositionAndLook { entity_id: e, x, y, z, stance, yaw, pitch } =>
            if e == entity_id {
            Movement {
                position: Position { x, y, z, stance, on_ground: m.position.on_ground },
                previous: previous_of(m.position),
                look: Look { yaw, pitch },
            }
        } else {
            m
        },
        PlayerPositionAndLookEvent::Position { entity_id: e, x, y, z, stance } => if e
            == entity_id {
            Movement {
                position: Position { x, y, z, stance, on_ground: m.position.on_ground },
                previous: previous_of(m.position),
                look: m.look,
            }
        } else {
            m
        },
        PlayerPositionAndLookEvent::Look { entity_id: e, yaw, pitch } => if e == entity_id {
            Movement { look: Look { yaw, pitch }, ..m }
        } else {
            m
        },
    }
}

pub open spec fn moved_by_all(
    m: Movement,
    entity_id: u32,
    events: Seq<PlayerPositionAndLookEvent>,
) -> Movement
    decreases events.len(),
{
    if events.len() == 0 {
        m
    } else {
        moved(moved_by_all(m, entity_id, events.drop_last()), entity_id, events.last())
    }
}

/// Applies one movement event to player `entity_id`. When the event moves that player, the
/// previous position afterwards is the position held just before.
pub fn apply_movement(m: &mut Movement, entity_id: u32, event: &PlayerPositionAndLookEvent)
    ensures
        *final(m) == moved(*old(m), entity_id, *event),
        match *event {
            PlayerPositionAndLookEvent::Look { .. } => final(m).previous == old(m).previous,
            PlayerPositionAndLookEvent::PositionAndLook { entity_id: e, .. }
            | PlayerPositionAndLookEvent::Position { entity_id: e, .. } => if e == entity_id {
                final(m).previous == previous_of(old(m).position)
            } else {
                final(m).previous == old(m).previous
            },
        },
{
    match *event {
        PlayerPositionAndLookEvent::PositionAndLook { entity_id: e, x, y, z, stance, yaw, pitch } => {
            if e == entity_id {
                m.previous = PreviousPosition {
                    x: m.position.x,
                    y: m.position.y,
                    z: m.position.z,
                    stance: m.position.stance,
                    on_ground: m.position.on_ground,
                };
                m.position = Position { x, y, z, stance, on_ground: m.position.on_ground };
                m.look = Look { yaw, pitch };
            }
        },
        PlayerPositionAndLookEvent::Position { entity_id: e, x, y, z, stance } => {
            if e == entity_id {
                m.previous = PreviousPosition {
                    x: m.position.x,
                    y: m.position.y,
                    z: m.position.z,
                    stance: m.position.stance,
                    on_ground: m.position.on_ground,
                };
                m.position = Position { x, y, z, stance, on_ground: m.position.on_ground };
            }
        },
        PlayerPositionAndLookEvent::Look { entity_id: e, yaw, pitch } => {
            if e == entity_id {
                m.look = Look { yaw, pitch };
            }
        },
    }
}

/// Applies the tick's movement events, in order, to player `entity_id`.
pub fn player_movement(m: &mut Movement, entity_id: u32, events: &Vec<PlayerPositionAndLookEvent>)
    ensures
        *final(m) == moved_by_all(*old(m), entity_id, events@),
{
    let ghost start = *m;
    let mut i: usize = 0;
    while i < events.len()
        invariant
            i <= events@.len(),
            *m == moved_by_all(start, entity_id, events@.take(i as int)),
        decreases events@.len() - i,
    {
        proof {
            assert(events@.take(i as int + 1).drop_last() =~= events@.take(i as int));
        }
        apply_movement(m, entity_id, &events[i]);
        i = i + 1;
    }
    proof {
        assert(events@.take(events@.len() as int) =~= events@);
    }
}

/// The block that a player digs at, and the face it digs from.
#[derive(Clone, Copy, Debug, PartialEq, Eq, Structural)]
pub struct Digging {
    pub x: i32,
    pub y: i8,
    pub z: i32,
    pub face: Face,
}

/// Whether the block column `(x, z)` lies in one of the chunks `chunks`: the column lies in
/// chunk `(x >> 4, z >> 4)`.
pub open spec fn sees(chunks: Seq<(i32, i32)>, x: i32, z: i32) -> bool {
    chunks.contains((x >> 4i32, z >> 4i32))
}

/// The chunks that a player's client has loaded, each once.
pub struct PlayerChunkDB {
    pub chunks: Vec<(i32, i32)>,
}

impl PlayerChunkDB {
    /// Each chunk is listed once.
    pub open spec fn wf(&self) -> bool {
        self.chunks@.no_duplicates()
    }

    pub fn new() -> (r: Self)
        ensures
            r.wf(),
            r.chunks@.len() == 0,
    {
        PlayerChunkDB { chunks: Vec::new() }
    }

    pub fn contains(&self, x: i32, z: i32) -> (r: bool)
        ensures
            r == self.chunks@.contains((x, z)),
    {
        let mut i: usize = 0;
        while i < self.chunks.len()
            invariant
                i <= self.chunks@.len(),
                forall|k: int| 0 <= k < i ==> self.chunks@[k] != (x, z),
            decreases self.chunks@.len() - i,
        {
            let (a, b) = self.chunks[i];
            if a == x && b == z {
                assert(self.chunks@[i as int] == (x, z));
                return true;
            }
            i = i + 1;
        }
        false
    }

    /// Adds the chunk `(x, z)`; false when it was there already.
    pub fn insert(&mut self, x: i32, z: i32) -> (r: bool)
        requires
            old(self).wf(),
        ensures
            final(self).wf(),
            r == !old(self).chunks@.contains((x, z)),
            r ==> final(self).chunks@ == old(self).chunks@.push((x, z)),
            !r ==> final(self).chunks@ == old(self).chunks@,
    {
        if self.contains(x, z) {
            false
        } else {
            self.chunks.push((x, z));
            true
        }
    }

    /// Drops the chunk `(x, z)`; false when it was not there.
    pub fn remove(&mut self, x: i32, z: i32) -> (r: bool)
        requires
            old(self).wf(),
        ensures
            final(self).wf(),
            r == old(self).chunks@.contains((x, z)),
            forall|c: (i32, i32)|
                #[trigger] final(self).chunks@.contains(c) <==> (old(self).chunks@.contains(c)
                    && c != (x, z)),
    {
        let ghost before = self.chunks@;
        let mut i: usize = 0;
        while i < self.chunks.len()
            invariant
                self.chunks@ == before,
                before == old(self).chunks@,
                before.no_duplicates(),
                i <= before.len(),
                forall|k: int| 0 <= k < i ==> before[k] != (x, z),
            decreases before.len() - i,
        {
            let (a, b) = self.chunks[i];
            if a == x && b == z {
                self.chunks.remove(i);
                proof {
                    let after = self.chunks@;
                    assert(before[i as int] == (x, z));
                    assert(before.contains((x, z)));
                    assert forall|k: int| 0 <= k < after.len() implies #[trigger] after[k] == (if k
                        < i {
                        before[k]
                    } else {
                        before[k + 1]
                    }) by {}
                    assert forall|c: (i32, i32)| #[trigger]
                        after.contains(c) <==> (before.contains(c) && c != (x, z)) by {
                        if after.contains(c) {
                            let k = choose|k: int| 0 <= k < after.len() && after[k] == c;
                            if k < i {
                                assert(before[k] == c);
                            } else {
                                assert(before[k + 1] == c);
                            }
                            assert(before.contains(c));
                        }
                        if before.contains(c) && c != (x, z) {
                            let k = choose|k: int| 0 <= k < before.len() && before[k] == c;
                            assert(k != i);
                            if k < i {
                                assert(after[k] == c);
                            } else {
                                assert(after[k - 1] == c);
                            }
                        }
                    }
                    assert forall|p: int, q: int|
                        0 <= p < after.len() && 0 <= q < after.len() && p != q implies after[p]
                        != after[q] by {
                        let pp = if p < i {
                            p
                        } else {
                            p + 1
                        };
                        let qq = if q < i {
                            q
                        } else {
                            q + 1
                        };
                        assert(after[p] == before[pp]);
                        assert(after[q] == before[qq]);
                    }
                }
                return true;
            }
            i = i + 1;
        }
        false
    }

    /// Whether the block column `(x, z)` lies in one of these chunks.
    pub fn sees(&self, x: i32, z: i32) -> (r: bool)
        ensures
            r == sees(self.chunks@, x, z),
    {
        self.contains(x >> 4i32, z >> 4i32)
    }
}

/// The first position of `v` in `s`, when `s` holds it.
pub open spec fn first_index(s: Seq<u32>, v: u32) -> int {
    choose|i: int| 0 <= i < s.len() && s[i] == v && forall|k: int| 0 <= k < i ==> s[k] != v
}

/// `s` without the element at `i`, whose place the last element takes.
pub open spec fn swap_removed(s: Seq<u32>, i: int) -> Seq<u32> {
    s.update(i, s.last()).drop_last()
}

/// The other players that a player's client knows of, by entity index.
pub struct PlayerEntityDB {
    pub visible_entities: Vec<u32>,
}

/// What happened to another player in a player's view.
#[derive(Clone, Copy, Debug, PartialEq, Eq, Structural)]
pub enum VisibilityChange {
    Appeared,
    Vanished,
    Unchanged,
}

impl PlayerEntityDB {
    pub fn new() -> (r: Self)
        ensures
            r.visible_entities@.len() == 0,
    {
        PlayerEntityDB { visible_entities: Vec::new() }
    }

    fn position_of(&self, id: u32) -> (r: Option<usize>)
        ensures
            r matches Some(i) ==> i < self.visible_entities@.len() && self.visible_entities@[i as int]
                == id && i == first_index(
                self.visible_entities@,
                id,
            ),
            r is None ==> !self.visible_entities@.contains(id),
    {
        let mut i: usize = 0;
        while i < self.visible_entities.len()
            invariant
                i <= self.visible_entities@.len(),
                forall|k: int| 0 <= k < i ==> self.visible_entities@[k] != id,
            decreases self.visible_entities@.len() - i,
        {
            if self.visible_entities[i] == id {
                proof {
                    let s = self.visible_entities@;
                    let j = first_index(s, id);
                    assert(0 <= i < s.len() && s[i as int] == id && forall|k: int|
                        0 <= k < i ==> s[k] != id);
                    if j < i {
                        assert(s[j] != id);
                    } else if j > i {
                        assert(s[i as int] != id);
                    }
                }
                return Some(i);
            }
            i = i + 1;
        }
        None
    }

    /// Drops `id` from the view (the last one takes its place); false when it was not there.
    pub fn forget(&mut self, id: u32) -> (r: bool)
        ensures
            r == old(self).visible_entities@.contains(id),
            r ==> final(self).visible_entities@ == swap_removed(
                old(self).visible_entities@,
                first_index(old(self).visible_entities@, id),
            ),
            !r ==> final(self).visible_entities@ == old(self).visible_entities@,
    {
        match self.position_of(id) {
            Some(i) => {
                self.visible_entities.swap_remove(i);
                true
            },
            None => false,
        }
    }

    /// Brings the view of `other` up to date: it appears when it is visible and was not
    /// known, and vanishes when it is known and no longer visible.
    pub fn update(&mut self, other: u32, visible: bool) -> (r: VisibilityChange)
        ensures
            ({
                let s = old(self).visible_entities@;
                if visible && !s.contains(other) {
                    r == VisibilityChange::Appeared && final(self).visible_entities@ == s.push(
                        other,
                    )
                } else if !visible && s.contains(other) {
                    r == VisibilityChange::Vanished && final(self).visible_entities@
                        == swap_removed(s, first_index(s, other))
                } else {
                    r == VisibilityChange::Unchanged && final(self).visible_entities@ == s
                }
            }),
    {
        let known = self.position_of(other);
        if visible && known.is_none() {
            self.visible_entities.push(other);
            VisibilityChange::Appeared
        } else if !visible && known.is_some() {
            self.forget(other);
            VisibilityChange::Vanished
        } else {
            VisibilityChange::Unchanged
        }
    }
}

} // verus!
