//! The world: its level data, and the cache of the chunks that are loaded.
//!
//! Reading and writing files is left to the caller. A chunk comes in and goes out as a
//! `ChunkRecord`, the plain values of its `Level` compound; the world checks and keeps them.
use crate::util::{base36_from_i32, base36_from_u64, base36_text};
use vstd::prelude::*;

verus! {

pub const BLOCKS_LEN: usize = 32768;
pub const NIBBLES_LEN: usize = 16384;
pub const HEIGHT_MAP_LEN: usize = 256;
/// Ticks in a day; the time of day wraps there.
pub const DAY_TICKS: u64 = 24000;

/// Why a chunk could not be had.
#[derive(Clone, Copy, Debug, PartialEq, Eq, Structural)]
pub enum ChunkError {
    /// The chunk is not in the cache.
    NotLoaded,
    /// One of the chunk's arrays does not have the length that the format demands.
    WrongArrayLength,
}

/// The fields of a chunk's `Level` compound, as plain values.
#[derive(Clone, Debug)]
pub struct ChunkRecord {
    pub terrain_populated: i8,
    pub last_update: i64,
    pub blocks: Vec<u8>,
    pub data: Vec<u8>,
    pub block_light: Vec<u8>,
    pub sky_light: Vec<u8>,
    pub height_map: Vec<u8>,
}

pub struct ChunkRecordState {
    pub terrain_populated: i8,
    pub last_update: i64,
    pub blocks: Seq<u8>,
    pub data: Seq<u8>,
    pub block_light: Seq<u8>,
    pub sky_light: Seq<u8>,
    pub height_map: Seq<u8>,
}

impl View for ChunkRecord {
    type V = ChunkRecordState;

    open spec fn view(&self) -> ChunkRecordState {
        ChunkRecordState {
            terrain_populated: self.terrain_populated,
            last_update: self.last_update,
            blocks: self.blocks@,
            data: self.data@,
            block_light: self.block_light@,
            sky_light: self.sky_light@,
            height_map: self.height_map@,
        }
    }
}

/// A 16x128x16 column of blocks with its light and height maps.
pub struct Chunk {
    pub chunk_x: i32,
    pub chunk_z: i32,
    pub terrain_populated: bool,
    pub last_update: u64,
    pub blocks: Vec<u8>,
    pub data: Vec<u8>,
    pub block_light: Vec<u8>,
    pub sky_light: Vec<u8>,
    pub height_map: Vec<u8>,
}

pub struct ChunkState {
    pub chunk_x: i32,
    pub chunk_z: i32,
    pub terrain_populated: bool,
    pub last_update: u64,
    pub blocks: Seq<u8>,
    pub data: Seq<u8>,
    pub block_light: Seq<u8>,
    pub sky_light: Seq<u8>,
    pub height_map: Seq<u8>,
}

impl View for Chunk {
    type V = ChunkState;

    open spec fn view(&self) -> ChunkState {
        ChunkState {
            chunk_x: self.chunk_x,
            chunk_z: self.chunk_z,
            terrain_populated: self.terrain_populated,
            last_update: self.last_update,
            blocks: self.blocks@,
            data: self.data@,
            block_light: self.block_light@,
            sky_light: self.sky_light@,
            height_map: self.height_map@,
        }
    }
}

/// Whether a record's arrays have the lengths of the format.
pub open spec fn record_lengths_ok(r: ChunkRecordState) -> bool {
    &&& r.blocks.len() == BLOCKS_LEN
    &&& r.data.len() == NIBBLES_LEN
    &&& r.block_light.len() == NIBBLES_LEN
    &&& r.sky_light.len() == NIBBLES_LEN
    &&& r.height_map.len() == HEIGHT_MAP_LEN
}

/// The chunk at `(x, z)` that a record describes, if its arrays have the right lengths.
pub open spec fn loaded(x: i32, z: i32, r: ChunkRecordState) -> Option<ChunkState> {
    if record_lengths_ok(r) {
        Some(
            ChunkState {
                chunk_x: x,
                chunk_z: z,
                terrain_populated: r.terrain_populated > 0,
                last_update: r.last_update as u64,
                blocks: r.blocks,
                data: r.data,
                block_light: r.block_light,
                sky_light: r.sky_light,
                height_map: r.height_map,
            },
        )
    } else {
        None
    }
}

/// The record that a chunk is saved as.
pub open spec fn saved(c: ChunkState) -> ChunkRecordState {
    ChunkRecordState {
        terrain_populated: if c.terrain_populated {
            1
        } else {
            0
        },
        last_update: c.last_update as i64,
        blocks: c.blocks,
        data: c.data,
        block_light: c.block_light,
        sky_light: c.sky_light,
        height_map: c.height_map,
    }
}

/// Loading a chunk, saving it and loading it again gives the same chunk: the five arrays,
/// the populated flag and the time of the last update.
pub proof fn chunk_load_save_load(x: i32, z: i32, r: ChunkRecordState)
    requires
        loaded(x, z, r) is Some,
    ensures
        loaded(x, z, saved(loaded(x, z, r)->Some_0)) == loaded(x, z, r),
{
    let v = (r.last_update as u64);
    assert(((v as i64) as u64) == v) by (bit_vector);
}

/// Index of the block at chunk-local `(x, y, z)` in the blocks array.
pub open spec fn block_index(x: u8, y: u8, z: u8) -> int {
    y + z * 128 + x * 128 * 16
}

/// The block at an index of a blocks array, if the index is inside it.
pub open spec fn block_at(blocks: Seq<u8>, i: int) -> Option<u8> {
    if 0 <= i < blocks.len() {
        Some(blocks[i])
    } else {
        None
    }
}

/// The blocks array with the block at an index replaced, if the index is inside it.
pub open spec fn with_block(blocks: Seq<u8>, i: int, v: u8) -> Seq<u8> {
    if 0 <= i < blocks.len() {
        blocks.update(i, v)
    } else {
        blocks
    }
}

/// Right after a block is set to `v`, reading it gives `v`; and setting one block leaves
/// every other block as it was.
pub proof fn set_then_get(blocks: Seq<u8>, x: u8, y: u8, z: u8, v: u8)
    requires
        0 <= block_index(x, y, z) < blocks.len(),
    ensures
        block_at(with_block(blocks, block_index(x, y, z), v), block_index(x, y, z)) == Some(v),
        forall|i: int|
            i != block_index(x, y, z) ==> #[trigger] block_at(
                with_block(blocks, block_index(x, y, z), v),
                i,
            ) == block_at(blocks, i),
{
}

impl Chunk {
    /// The chunk's arrays have the lengths of the format.
    pub open spec fn wf(&self) -> bool {
        record_lengths_ok(saved(self@))
    }

    /// The chunk at `(x, z)` that `record` describes; `WrongArrayLength` when one of its
    /// arrays does not have the format's length.
    pub fn from_record(x: i32, z: i32, record: ChunkRecord) -> (r: Result<Chunk, ChunkError>)
        ensures
            match loaded(x, z, record@) {
                Some(c) => r matches Ok(k) && k@ == c,
                None => r == Err::<Chunk, ChunkError>(ChunkError::WrongArrayLength),
            },
    {
        if record.blocks.len() != BLOCKS_LEN || record.data.len() != NIBBLES_LEN
            || record.block_light.len() != NIBBLES_LEN || record.sky_light.len() != NIBBLES_LEN
            || record.height_map.len() != HEIGHT_MAP_LEN {
            return Err(ChunkError::WrongArrayLength);
        }
        Ok(
            Chunk {
                chunk_x: x,
                chunk_z: z,
                terrain_populated: record.terrain_populated > 0,
                last_update: record.last_update as u64,
                blocks: record.blocks,
                data: record.data,
                block_light: record.block_light,
                sky_light: record.sky_light,
                height_map: record.height_map,
            },
        )
    }

    /// The record that this chunk is saved as.
    pub fn to_record(&self) -> (r: ChunkRecord)
        ensures
            r@ == saved(self@),
    {
        ChunkRecord {
            terrain_populated: if self.terrain_populated {
                1
            } else {
                0
            },
            last_update: self.last_update as i64,
            blocks: vstd::slice::slice_to_vec(self.blocks.as_slice()),
            data: vstd::slice::slice_to_vec(self.data.as_slice()),
            block_light: vstd::slice::slice_to_vec(self.block_light.as_slice()),
            sky_light: vstd::slice::slice_to_vec(self.sky_light.as_slice()),
            height_map: vstd::slice::slice_to_vec(self.height_map.as_slice()),
        }
    }

    /// The block id at chunk-local `(x, y, z)`, or `None` when that is outside the chunk.
    pub fn get_block(&self, x: u8, y: u8, z: u8) -> (r: Option<u8>)
        ensures
            r == block_at(self.blocks@, block_index(x, y, z)),
    {
        let index = y as usize + (z as usize) * 128 + (x as usize) * 128 * 16;
        if index < self.blocks.len() {
            Some(self.blocks[index])
        } else {
            None
        }
    }

    /// Sets the block id at chunk-local `(x, y, z)` and returns the one that was there, or
    /// `None` (changing nothing) when that is outside the chunk.
    pub fn set_block(&mut self, x: u8, y: u8, z: u8, block_id: u8) -> (r: Option<u8>)
        ensures
            r == block_at(old(self).blocks@, block_index(x, y, z)),
            final(self).blocks@ == with_block(old(self).blocks@, block_index(x, y, z), block_id),
            final(self).chunk_x == old(self).chunk_x,
            final(self).chunk_z == old(self).chunk_z,
            final(self).terrain_populated == old(self).terrain_populated,
            final(self).last_update == old(self).last_update,
            final(self).data@ == old(self).data@,
            final(self).block_light@ == old(self).block_light@,
            final(self).sky_light@ == old(self).sky_light@,
            final(self).height_map@ == old(self).height_map@,
    {
        let index = y as usize + (z as usize) * 128 + (x as usize) * 128 * 16;
        if index < self.blocks.len() {
            let previous = self.blocks[index];
            self.blocks.set(index, block_id);
            Some(previous)
        } else {
            None
        }
    }

    /// Whether the block column `(x, z)` lies in this chunk, which is chunk
    /// `(x >> 4, z >> 4)`.
    pub fn is_inside_chunk(&self, x: i32, z: i32) -> (r: bool)
        ensures
            r == (self.chunk_x == x >> 4i32 && self.chunk_z == z >> 4i32),
    {
        self.chunk_x == x >> 4i32 && self.chunk_z == z >> 4i32
    }

    /// What the client receives of the chunk, before compression: blocks, data, block light
    /// and sky light, one after the other.
    pub fn payload(&self) -> (r: Vec<u8>)
        ensures
            r@ == self.blocks@ + self.data@ + self.block_light@ + self.sky_light@,
    {
        let mut out = vstd::slice::slice_to_vec(self.blocks.as_slice());
        crate::byte_man::put_bytes(&mut out, self.data.as_slice());
        crate::byte_man::put_bytes(&mut out, self.block_light.as_slice());
        crate::byte_man::put_bytes(&mut out, self.sky_light.as_slice());
        out
    }
}

/// The directory names of a coordinate: base 36 of its low byte, modulo 64.
pub open spec fn region_dir(v: i32) -> Seq<char> {
    base36_text((((v as i8) as u8) % 64) as nat)
}

/// The base-36 text of a signed coordinate.
pub open spec fn signed_base36(v: i32) -> Seq<char> {
    (if v < 0 {
        seq!['-']
    } else {
        Seq::<char>::empty()
    }) + base36_text(
        if v < 0 {
            (-v) as nat
        } else {
            v as nat
        },
    )
}

/// Where the chunk `(x, z)` lies under the world directory: two directory names and the
/// file name `c.<x>.<z>.dat`, all in base 36.
pub fn chunk_file_parts(x: i32, z: i32) -> (r: (String, String, String))
    ensures
        r.0@ == region_dir(x),
        r.1@ == region_dir(z),
        r.2@ == seq!['c', '.'] + signed_base36(x) + seq!['.'] + signed_base36(z) + seq![
            '.',
            'd',
            'a',
            't',
        ],
{
    let high = base36_from_u64((((x as i8) as u8) % 64) as u64);
    let low = base36_from_u64((((z as i8) as u8) % 64) as u64);
    let xs = base36_from_i32(x);
    let zs = base36_from_i32(z);
    let mut name = String::from_str("c.");
    name.append(xs.as_str());
    name.append(".");
    name.append(zs.as_str());
    name.append(".dat");
    proof {
        reveal_strlit("c.");
        reveal_strlit(".");
        reveal_strlit(".dat");
        assert(name@ =~= seq!['c', '.'] + signed_base36(x) + seq!['.'] + signed_base36(z) + seq![
            '.',
            'd',
            'a',
            't',
        ]);
    }
    (high, low, name)
}

/// The level data of a world and its cache of loaded chunks.
pub struct World {
    pub seed: i64,
    pub spawn: [i32; 3],
    pub time: u64,
    pub size_on_disk: u64,
    pub last_played: u64,
    pub chunks: Vec<Chunk>,
}

/// Whether the cache holds a chunk at `(x, z)`.
pub open spec fn has_chunk(chunks: Seq<Chunk>, x: i32, z: i32) -> bool {
    exists|i: int| 0 <= i < chunks.len() && chunks[i].chunk_x == x && chunks[i].chunk_z == z
}

impl World {
    /// The time of day is below a day's ticks, and the cache holds at most one chunk per
    /// position, each with the format's array lengths.
    pub open spec fn wf(&self) -> bool {
        &&& self.time < DAY_TICKS
        &&& forall|i: int| 0 <= i < self.chunks@.len() ==> (#[trigger] self.chunks@[i]).wf()
        &&& forall|i: int, j: int|
            0 <= i < j < self.chunks@.len() ==> !(self.chunks@[i].chunk_x
                == self.chunks@[j].chunk_x && self.chunks@[i].chunk_z == self.chunks@[j].chunk_z)
    }

    /// A world with the given level data, the time reduced to the time of day, and no chunk
    /// loaded.
    pub fn new(seed: i64, spawn: [i32; 3], time: u64, size_on_disk: u64, last_played: u64) -> (r:
        World)
        ensures
            r.wf(),
            r.seed == seed,
            r.spawn == spawn,
            r.time == time % DAY_TICKS,
            r.size_on_disk == size_on_disk,
            r.last_played == last_played,
            r.chunks@.len() == 0,
    {
        World { seed, spawn, time: time % DAY_TICKS, size_on_disk, last_played, chunks: Vec::new() }
    }

    pub fn get_seed(&self) -> (r: i64)
        ensures
            r == self.seed,
    {
        self.seed
    }

    pub fn get_spawn(&self) -> (r: [i32; 3])
        ensures
            r == self.spawn,
    {
        self.spawn
    }

    pub fn get_time(&self) -> (r: u64)
        ensures
            r == self.time,
    {
        self.time
    }

    /// Sets the time of day to `time` modulo a day.
    pub fn set_time(&mut self, time: u64)
        requires
            old(self).wf(),
        ensures
            final(self).wf(),
            final(self).time == time % DAY_TICKS,
            final(self).seed == old(self).seed,
            final(self).spawn == old(self).spawn,
            final(self).size_on_disk == old(self).size_on_disk,
            final(self).last_played == old(self).last_played,
            final(self).chunks@ == old(self).chunks@,
    {
        self.time = time % DAY_TICKS;
    }

    /// Moves the time of day on by `ticks`, wrapping at a day.
    pub fn advance_time(&mut self, ticks: u32)
        requires
            old(self).wf(),
        ensures
            final(self).wf(),
            final(self).time == (old(self).time + ticks) % (DAY_TICKS as int),
            final(self).seed == old(self).seed,
            final(self).spawn == old(self).spawn,
            final(self).size_on_disk == old(self).size_on_disk,
            final(self).last_played == old(self).last_played,
            final(self).chunks@ == old(self).chunks@,
    {
        let now = self.get_time();
        self.set_time(now + ticks as u64);
    }

    /// Where the chunk at `(x, z)` stands in the cache, if it is loaded.
    pub fn chunk_index(&self, x: i32, z: i32) -> (r: Option<usize>)
        ensures
            r matches Some(i) ==> i < self.chunks@.len() && self.chunks@[i as int].chunk_x == x
                && self.chunks@[i as int].chunk_z == z,
            r is None ==> !has_chunk(self.chunks@, x, z),
    {
        let mut i: usize = 0;
        while i < self.chunks.len()
            invariant
                i <= self.chunks@.len(),
                forall|k: int|
                    0 <= k < i ==> !(#[trigger] self.chunks@[k].chunk_x == x
                        && self.chunks@[k].chunk_z == z),
            decreases self.chunks@.len() - i,
        {
            if self.chunks[i].chunk_x == x && self.chunks[i].chunk_z == z {
                return Some(i);
            }
            i = i + 1;
        }
        None
    }

    /// The loaded chunk at `(x, z)`, or `NotLoaded`.
    pub fn get_chunk(&self, x: i32, z: i32) -> (r: Result<&Chunk, ChunkError>)
        ensures
            has_chunk(self.chunks@, x, z) ==> (r matches Ok(c) && c.chunk_x == x && c.chunk_z
                == z && self.chunks@.contains(*c)),
            !has_chunk(self.chunks@, x, z) ==> r == Err::<&Chunk, ChunkError>(
                ChunkError::NotLoaded,
            ),
    {
        match self.chunk_index(x, z) {
            Some(i) => Ok(&self.chunks[i]),
            None => Err(ChunkError::NotLoaded),
        }
    }

    /// Puts a chunk in the cache, in place of the one at its position if there is one.
    pub fn insert_chunk(&mut self, chunk: Chunk)
        requires
            old(self).wf(),
            chunk.wf(),
        ensures
            final(self).wf(),
            has_chunk(final(self).chunks@, chunk.chunk_x, chunk.chunk_z),
            final(self).chunks@.contains(chunk),
            final(self).time == old(self).time,
            forall|x: i32, z: i32|
                !(x == chunk.chunk_x && z == chunk.chunk_z) ==> (has_chunk(final(self).chunks@, x, z)
                    <==> has_chunk(old(self).chunks@, x, z)),
    {
        let ghost old_chunks = self.chunks@;
        let (x, z) = (chunk.chunk_x, chunk.chunk_z);
        match self.chunk_index(x, z) {
            Some(i) => {
                self.chunks.set(i, chunk);
                proof {
                    assert(self.chunks@[i as int] == chunk);
                    assert forall|a: i32, b: i32|
                        !(a == x && b == z) implies (has_chunk(self.chunks@, a, b) <==> has_chunk(
                            old_chunks,
                            a,
                            b,
                        )) by {
                        if has_chunk(self.chunks@, a, b) {
                            let k = choose|k: int|
                                0 <= k < self.chunks@.len() && self.chunks@[k].chunk_x == a
                                    && self.chunks@[k].chunk_z == b;
                            assert(old_chunks[k] == self.chunks@[k]);
                        }
                        if has_chunk(old_chunks, a, b) {
                            let k = choose|k: int|
                                0 <= k < old_chunks.len() && old_chunks[k].chunk_x == a
                                    && old_chunks[k].chunk_z == b;
                            assert(old_chunks[k] == self.chunks@[k]);
                        }
                    }
                }
            },
            None => {
                self.chunks.push(chunk);
                proof {
                    let n = old_chunks.len() as int;
                    assert(self.chunks@[n] == chunk);
                    assert forall|a: i32, b: i32|
                        !(a == x && b == z) implies (has_chunk(self.chunks@, a, b) <==> has_chunk(
                            old_chunks,
                            a,
                            b,
                        )) by {
                        if has_chunk(self.chunks@, a, b) {
                            let k = choose|k: int|
                                0 <= k < self.chunks@.len() && self.chunks@[k].chunk_x == a
                                    && self.chunks@[k].chunk_z == b;
                            assert(k < n);
                            assert(old_chunks[k] == self.chunks@[k]);
                        }
                        if has_chunk(old_chunks, a, b) {
                            let k = choose|k: int|
                                0 <= k < old_chunks.len() && old_chunks[k].chunk_x == a
                                    && old_chunks[k].chunk_z == b;
                            assert(old_chunks[k] == self.chunks@[k]);
                        }
                    }
                }
            },
        }
    }

    /// Takes the chunk at `(x, z)` out of the cache and hands it back to be saved; `NotLoaded`
    /// when it is not there.
    pub fn unload_chunk(&mut self, x: i32, z: i32) -> (r: Result<Chunk, ChunkError>)
        requires
            old(self).wf(),
        ensures
            final(self).wf(),
            has_chunk(old(self).chunks@, x, z) ==> (r matches Ok(c) && c.chunk_x == x && c.chunk_z
                == z && old(self).chunks@.contains(c)),
            !has_chunk(old(self).chunks@, x, z) ==> r == Err::<Chunk, ChunkError>(
                ChunkError::NotLoaded,
            ) && final(self).chunks@ == old(self).chunks@,
            !has_chunk(final(self).chunks@, x, z),
            final(self).time == old(self).time,
            forall|a: i32, b: i32|
                !(a == x && b == z) ==> (has_chunk(final(self).chunks@, a, b) <==> has_chunk(
                    old(self).chunks@,
                    a,
                    b,
                )),
    {
        let ghost old_chunks = self.chunks@;
        match self.chunk_index(x, z) {
            Some(i) => {
                let c = self.chunks.remove(i);
                proof {
                    assert(old_chunks[i as int] == c);
                    let n = self.chunks@;
                    assert forall|k: int| 0 <= k < n.len() implies #[trigger] n[k] == (if k < i {
                        old_chunks[k]
                    } else {
                        old_chunks[k + 1]
                    }) by {}
                    assert forall|a: i32, b: i32|
                        has_chunk(n, a, b) implies has_chunk(old_chunks, a, b) && !(a == x && b
                        == z) by {
                        let k = choose|k: int|
                            0 <= k < n.len() && n[k].chunk_x == a && n[k].chunk_z == b;
                        let j = if k < i {
                            k
                        } else {
                            k + 1
                        };
                        assert(old_chunks[j] == n[k]);
                    }
                    assert forall|a: i32, b: i32|
                        has_chunk(old_chunks, a, b) && !(a == x && b == z) implies has_chunk(
                            n,
                            a,
                            b,
                        ) by {
                        let k = choose|k: int|
                            0 <= k < old_chunks.len() && old_chunks[k].chunk_x == a
                                && old_chunks[k].chunk_z == b;
                        assert(k != i);
                        let j = if k < i {
                            k
                        } else {
                            k - 1
                        };
                        assert(n[j] == old_chunks[k]);
                    }
                }
                Ok(c)
            },
            None => Err(ChunkError::NotLoaded),
        }
    }

    /// Breaks the block at world position `(x, y, z)`: in the chunk `(x >> 4, z >> 4)`, the
    /// block at `(x & 15, y, z & 15)` becomes air (0). Returns the block that was there, or
    /// `None` (changing nothing) when that chunk is not loaded or `y` is outside it.
    pub fn break_block(&mut self, x: i32, y: i8, z: i32) -> (r: Option<u8>)
        requires
            old(self).wf(),
        ensures
            final(self).wf(),
            final(self).time == old(self).time,
            final(self).chunks@.len() == old(self).chunks@.len(),
            !has_chunk(old(self).chunks@, x >> 4i32, z >> 4i32) ==> r is None && final(self).chunks@ == old(self).chunks@,
            has_chunk(old(self).chunks@, x >> 4i32, z >> 4i32) ==> exists|i: int|
                0 <= i < old(self).chunks@.len() && old(self).chunks@[i].chunk_x == x >> 4i32
                    && old(self).chunks@[i].chunk_z == z >> 4i32 && r == block_at(
                    old(self).chunks@[i].blocks@,
                    block_index((x & 15i32) as u8, y as u8, (z & 15i32) as u8),
                ) && final(self).chunks@[i].blocks@ == with_block(
                    old(self).chunks@[i].blocks@,
                    block_index((x & 15i32) as u8, y as u8, (z & 15i32) as u8),
                    0,
                ) && forall|k: int|
                    0 <= k < old(self).chunks@.len() && k != i ==> final(self).chunks@[k]
                        == old(self).chunks@[k],
    {
        match self.chunk_index(x >> 4i32, z >> 4i32) {
            Some(i) => {
                let ghost before = self.chunks@;
                let mut chunk = self.chunks.remove(i);
                let previous = chunk.set_block((x & 15i32) as u8, y as u8, (z & 15i32) as u8, 0);
                self.chunks.insert(i, chunk);
                proof {
                    assert forall|k: int| 0 <= k < before.len() && k != i implies self.chunks@[k]
                        == before[k] by {}
                    assert(self.chunks@[i as int].chunk_x == before[i as int].chunk_x);
                    assert forall|k: int| 0 <= k < self.chunks@.len() implies (
                    #[trigger] self.chunks@[k]).wf() by {
                        if k != i {
                            assert(self.chunks@[k] == before[k]);
                        }
                    }
                }
                previous
            },
            None => None,
        }
    }

    /// The record to save for the loaded chunk at `(x, z)`, which stays loaded; `NotLoaded`
    /// when it is not there.
    pub fn save_chunk(&self, x: i32, z: i32) -> (r: Result<ChunkRecord, ChunkError>)
        ensures
            has_chunk(self.chunks@, x, z) ==> (r matches Ok(rec) && exists|i: int|
                0 <= i < self.chunks@.len() && self.chunks@[i].chunk_x == x
                    && self.chunks@[i].chunk_z == z && rec@ == saved(self.chunks@[i]@)),
            !has_chunk(self.chunks@, x, z) ==> r == Err::<ChunkRecord, ChunkError>(
                ChunkError::NotLoaded,
            ),
    {
        match self.chunk_index(x, z) {
            Some(i) => Ok(self.chunks[i].to_record()),
            None => Err(ChunkError::NotLoaded),
        }
    }
}

} // verus!
