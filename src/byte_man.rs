//! Big-endian readers over a byte slice and a cursor position, and the matching writers.
//!
//! Every reader checks that enough bytes remain before it reads: when they do not, it
//! returns `NotEnoughBytes` and leaves the cursor where it was.
use crate::packet::PacketError;
use vstd::prelude::*;
use vstd::slice::{slice_subrange, slice_to_vec};
use vstd::utf8::{decode_utf8, valid_utf8};

verus! {

/// Big-endian value of the two bytes at `i`.
pub open spec fn u16_at(b: Seq<u8>, i: int) -> u16 {
    ((b[i] as u16) << 8u16) | (b[i + 1] as u16)
}

/// Big-endian value of the four bytes at `i`.
pub open spec fn u32_at(b: Seq<u8>, i: int) -> u32 {
    ((b[i] as u32) << 24u32) | ((b[i + 1] as u32) << 16u32) | ((b[i + 2] as u32) << 8u32) | (b[i
        + 3] as u32)
}

/// Big-endian value of the eight bytes at `i`.
pub open spec fn u64_at(b: Seq<u8>, i: int) -> u64 {
    ((u32_at(b, i) as u64) << 32u64) | (u32_at(b, i + 4) as u64)
}

pub open spec fn u16_bytes(v: u16) -> Seq<u8> {
    seq![(v >> 8u16) as u8, v as u8]
}

pub open spec fn u32_bytes(v: u32) -> Seq<u8> {
    seq![(v >> 24u32) as u8, (v >> 16u32) as u8, (v >> 8u32) as u8, v as u8]
}

pub open spec fn u64_bytes(v: u64) -> Seq<u8> {
    u32_bytes((v >> 32u64) as u32) + u32_bytes(v as u32)
}

/// What `String::from_utf8_lossy` makes of a byte sequence.
pub uninterp spec fn lossy_text(b: Seq<u8>) -> Seq<char>;

/// Relies on `String::from_utf8_lossy`: valid UTF-8 is decoded as it is, and each invalid
/// sequence becomes U+FFFD.
#[verifier::external_body]
pub(crate) fn text_from_utf8_lossy(b: &[u8]) -> (r: String)
    ensures
        r@ == lossy_text(b@),
        valid_utf8(b@) ==> r@ == decode_utf8(b@),
{
    String::from_utf8_lossy(b).into_owned()
}

pub proof fn lemma_u16_bytes(b: Seq<u8>, i: int)
    requires
        0 <= i,
        i + 2 <= b.len(),
    ensures
        u16_bytes(u16_at(b, i)) == b.subrange(i, i + 2),
{
    let (b0, b1) = (b[i], b[i + 1]);
    let v = u16_at(b, i);
    assert(((((b0 as u16) << 8u16) | (b1 as u16)) >> 8u16) as u8 == b0 && ((((b0 as u16) << 8u16)
        | (b1 as u16)) as u8) == b1) by (bit_vector);
    assert(u16_bytes(v) =~= b.subrange(i, i + 2));
}

pub proof fn lemma_u32_bytes(b: Seq<u8>, i: int)
    requires
        0 <= i,
        i + 4 <= b.len(),
    ensures
        u32_bytes(u32_at(b, i)) == b.subrange(i, i + 4),
{
    let (b0, b1, b2, b3) = (b[i], b[i + 1], b[i + 2], b[i + 3]);
    let v = u32_at(b, i);
    assert(v == ((b0 as u32) << 24u32) | ((b1 as u32) << 16u32) | ((b2 as u32) << 8u32) | (
    b3 as u32));
    assert({
        let x = ((b0 as u32) << 24u32) | ((b1 as u32) << 16u32) | ((b2 as u32) << 8u32) | (
        b3 as u32);
        &&& (x >> 24u32) as u8 == b0
        &&& (x >> 16u32) as u8 == b1
        &&& (x >> 8u32) as u8 == b2
        &&& x as u8 == b3
    }) by (bit_vector);
    assert(u32_bytes(v) =~= b.subrange(i, i + 4));
}

pub proof fn lemma_u64_bytes(b: Seq<u8>, i: int)
    requires
        0 <= i,
        i + 8 <= b.len(),
    ensures
        u64_bytes(u64_at(b, i)) == b.subrange(i, i + 8),
{
    let hi = u32_at(b, i);
    let lo = u32_at(b, i + 4);
    let v = u64_at(b, i);
    assert(((((hi as u64) << 32u64) | (lo as u64)) >> 32u64) as u32 == hi && ((((hi as u64)
        << 32u64) | (lo as u64)) as u32) == lo) by (bit_vector);
    lemma_u32_bytes(b, i);
    lemma_u32_bytes(b, i + 4);
    assert(u64_bytes(v) =~= b.subrange(i, i + 8));
}

/// The byte at the cursor, without moving it.
pub fn peek_u8(src: &[u8], pos: &usize) -> (r: Result<u8, PacketError>)
    ensures
        *pos < src@.len() ==> r == Ok::<u8, PacketError>(src@[*pos as int]),
        *pos >= src@.len() ==> r == Err::<u8, PacketError>(PacketError::NotEnoughBytes),
{
    if *pos >= src.len() {
        return Err(PacketError::NotEnoughBytes);
    }
    Ok(src[*pos])
}

pub fn get_u8(src: &[u8], pos: &mut usize) -> (r: Result<u8, PacketError>)
    ensures
        *old(pos) < src@.len() ==> r == Ok::<u8, PacketError>(src@[*old(pos) as int]) && *final(pos) == *old(pos) + 1,
        *old(pos) >= src@.len() ==> r == Err::<u8, PacketError>(PacketError::NotEnoughBytes)
            && *final(pos) == *old(pos),
{
    if *pos >= src.len() {
        return Err(PacketError::NotEnoughBytes);
    }
    let v = src[*pos];
    *pos = *pos + 1;
    Ok(v)
}

pub fn get_i8(src: &[u8], pos: &mut usize) -> (r: Result<i8, PacketError>)
    ensures
        *old(pos) < src@.len() ==> r == Ok::<i8, PacketError>(src@[*old(pos) as int] as i8)
            && *final(pos) == *old(pos) + 1,
        *old(pos) >= src@.len() ==> r == Err::<i8, PacketError>(PacketError::NotEnoughBytes)
            && *final(pos) == *old(pos),
{
    match get_u8(src, pos) {
        Ok(v) => Ok(v as i8),
        Err(e) => Err(e),
    }
}

pub fn get_u16(src: &[u8], pos: &mut usize) -> (r: Result<u16, PacketError>)
    ensures
        *old(pos) + 2 <= src@.len() ==> r == Ok::<u16, PacketError>(
            u16_at(src@, *old(pos) as int),
        ) && *final(pos) == *old(pos) + 2,
        *old(pos) + 2 > src@.len() ==> r == Err::<u16, PacketError>(PacketError::NotEnoughBytes)
            && *final(pos) == *old(pos),
{
    if src.len() < 2 || *pos > src.len() - 2 {
        return Err(PacketError::NotEnoughBytes);
    }
    let p = *pos;
    let v = ((src[p] as u16) << 8u16) | (src[p + 1] as u16);
    *pos = p + 2;
    Ok(v)
}

pub fn get_u32(src: &[u8], pos: &mut usize) -> (r: Result<u32, PacketError>)
    ensures
        *old(pos) + 4 <= src@.len() ==> r == Ok::<u32, PacketError>(
            u32_at(src@, *old(pos) as int),
        ) && *final(pos) == *old(pos) + 4,
        *old(pos) + 4 > src@.len() ==> r == Err::<u32, PacketError>(PacketError::NotEnoughBytes)
            && *final(pos) == *old(pos),
{
    if src.len() < 4 || *pos > src.len() - 4 {
        return Err(PacketError::NotEnoughBytes);
    }
    let p = *pos;
    let v = ((src[p] as u32) << 24u32) | ((src[p + 1] as u32) << 16u32) | ((src[p + 2] as u32)
        << 8u32) | (src[p + 3] as u32);
    *pos = p + 4;
    Ok(v)
}

pub fn get_i32(src: &[u8], pos: &mut usize) -> (r: Result<i32, PacketError>)
    ensures
        *old(pos) + 4 <= src@.len() ==> r == Ok::<i32, PacketError>(
            u32_at(src@, *old(pos) as int) as i32,
        ) && *final(pos) == *old(pos) + 4,
        *old(pos) + 4 > src@.len() ==> r == Err::<i32, PacketError>(PacketError::NotEnoughBytes)
            && *final(pos) == *old(pos),
{
    match get_u32(src, pos) {
        Ok(v) => Ok(v as i32),
        Err(e) => Err(e),
    }
}

pub fn get_u64(src: &[u8], pos: &mut usize) -> (r: Result<u64, PacketError>)
    ensures
        *old(pos) + 8 <= src@.len() ==> r == Ok::<u64, PacketError>(
            u64_at(src@, *old(pos) as int),
        ) && *final(pos) == *old(pos) + 8,
        *old(pos) + 8 > src@.len() ==> r == Err::<u64, PacketError>(PacketError::NotEnoughBytes)
            && *final(pos) == *old(pos),
{
    if src.len() < 8 || *pos > src.len() - 8 {
        return Err(PacketError::NotEnoughBytes);
    }
    let hi = get_u32(src, pos);
    let lo = get_u32(src, pos);
    match (hi, lo) {
        (Ok(h), Ok(l)) => Ok(((h as u64) << 32u64) | (l as u64)),
        _ => Err(PacketError::NotEnoughBytes),
    }
}

/// A single-precision float on the wire, as its IEEE-754 bit pattern.
pub fn get_f32(src: &[u8], pos: &mut usize) -> (r: Result<u32, PacketError>)
    ensures
        *old(pos) + 4 <= src@.len() ==> r == Ok::<u32, PacketError>(
            u32_at(src@, *old(pos) as int),
        ) && *final(pos) == *old(pos) + 4,
        *old(pos) + 4 > src@.len() ==> r == Err::<u32, PacketError>(PacketError::NotEnoughBytes)
            && *final(pos) == *old(pos),
{
    get_u32(src, pos)
}

/// A double-precision float on the wire, as its IEEE-754 bit pattern.
pub fn get_f64(src: &[u8], pos: &mut usize) -> (r: Result<u64, PacketError>)
    ensures
        *old(pos) + 8 <= src@.len() ==> r == Ok::<u64, PacketError>(
            u64_at(src@, *old(pos) as int),
        ) && *final(pos) == *old(pos) + 8,
        *old(pos) + 8 > src@.len() ==> r == Err::<u64, PacketError>(PacketError::NotEnoughBytes)
            && *final(pos) == *old(pos),
{
    get_u64(src, pos)
}

/// The `n` bytes at the cursor.
pub fn get_bytes(src: &[u8], pos: &mut usize, n: usize) -> (r: Result<Vec<u8>, PacketError>)
    ensures
        *old(pos) + n <= src@.len() ==> (r matches Ok(v) && v@ == src@.subrange(
            *old(pos) as int,
            *old(pos) + n,
        )) && *final(pos) == *old(pos) + n,
        *old(pos) + n > src@.len() ==> r == Err::<Vec<u8>, PacketError>(
            PacketError::NotEnoughBytes,
        ) && *final(pos) == *old(pos),
{
    if *pos > src.len() || n > src.len() - *pos {
        return Err(PacketError::NotEnoughBytes);
    }
    let p = *pos;
    let v = slice_to_vec(slice_subrange(src, p, p + n));
    *pos = p + n;
    Ok(v)
}

/// A string: a two-byte length, then that many bytes of UTF-8, decoded lossily.
pub fn get_string(src: &[u8], pos: &mut usize) -> (r: Result<String, PacketError>)
    ensures
        ({
            let p = *old(pos) as int;
            if p + 2 <= src@.len() && p + 2 + u16_at(src@, p) <= src@.len() {
                let raw = src@.subrange(p + 2, p + 2 + u16_at(src@, p));
                &&& (r matches Ok(s) && s@ == lossy_text(raw))
                &&& valid_utf8(raw) ==> (r matches Ok(s) && s@ == decode_utf8(raw))
                &&& *final(pos) == p + 2 + u16_at(src@, p)
            } else {
                r == Err::<String, PacketError>(PacketError::NotEnoughBytes) && *final(pos) == p
            }
        }),
{
    let start = *pos;
    let len = get_u16(src, pos)?;
    if *pos > src.len() || (len as usize) > src.len() - *pos {
        *pos = start;
        return Err(PacketError::NotEnoughBytes);
    }
    let p = *pos;
    let s = text_from_utf8_lossy(slice_subrange(src, p, p + len as usize));
    *pos = p + len as usize;
    Ok(s)
}

/// Moves the cursor `n` bytes on, when that many remain.
pub fn skip(src: &[u8], pos: &mut usize, n: usize) -> (r: Result<(), PacketError>)
    ensures
        *old(pos) + n <= src@.len() ==> r == Ok::<(), PacketError>(()) && *final(pos) == *old(pos) + n,
        *old(pos) + n > src@.len() ==> r == Err::<(), PacketError>(PacketError::NotEnoughBytes)
            && *final(pos) == *old(pos),
{
    if *pos > src.len() || n > src.len() - *pos {
        return Err(PacketError::NotEnoughBytes);
    }
    *pos = *pos + n;
    Ok(())
}

pub fn put_u8(out: &mut Vec<u8>, v: u8)
    ensures
        final(out)@ == old(out)@.push(v),
{
    out.push(v);
}

pub fn put_u16(out: &mut Vec<u8>, v: u16)
    ensures
        final(out)@ == old(out)@ + u16_bytes(v),
{
    let ghost start = out@;
    out.push((v >> 8u16) as u8);
    out.push(v as u8);
    assert(out@ =~= start + u16_bytes(v));
}

pub fn put_u32(out: &mut Vec<u8>, v: u32)
    ensures
        final(out)@ == old(out)@ + u32_bytes(v),
{
    let ghost start = out@;
    out.push((v >> 24u32) as u8);
    out.push((v >> 16u32) as u8);
    out.push((v >> 8u32) as u8);
    out.push(v as u8);
    assert(out@ =~= start + u32_bytes(v));
}

pub fn put_u64(out: &mut Vec<u8>, v: u64)
    ensures
        final(out)@ == old(out)@ + u64_bytes(v),
{
    let ghost start = out@;
    put_u32(out, (v >> 32u64) as u32);
    put_u32(out, v as u32);
    assert(out@ =~= start + u64_bytes(v));
}

pub fn put_bytes(out: &mut Vec<u8>, b: &[u8])
    ensures
        final(out)@ == old(out)@ + b@,
{
    let ghost start = out@;
    let mut i: usize = 0;
    while i < b.len()
        invariant
            i <= b@.len(),
            out@ =~= start + b@.take(i as int),
        decreases b@.len() - i,
    {
        out.push(b[i]);
        i = i + 1;
        assert(out@ =~= start + b@.take(i as int));
    }
    assert(b@.take(b@.len() as int) =~= b@);
}

} // verus!
