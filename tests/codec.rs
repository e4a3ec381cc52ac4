use beta_server::byte_man::{
    get_bytes, get_f32, get_f64, get_i32, get_i8, get_string, get_u16, get_u64, get_u8, peek_u8,
    put_u16, put_u32, put_u64, skip,
};
use beta_server::packet::PacketError;

#[test]
fn readers_are_big_endian() {
    let b = [0x12u8, 0x34, 0x56, 0x78, 0x9A, 0xBC, 0xDE, 0xF0];
    let mut pos = 0usize;
    assert_eq!(get_u16(&b, &mut pos), Ok(0x1234));
    assert_eq!(pos, 2);
    let mut pos = 0usize;
    assert_eq!(get_i32(&b, &mut pos), Ok(0x12345678));
    let mut pos = 0usize;
    assert_eq!(get_u64(&b, &mut pos), Ok(0x123456789ABCDEF0));
    assert_eq!(pos, 8);
    let mut pos = 4usize;
    assert_eq!(get_i8(&b, &mut pos), Ok(0x9Au8 as i8));
    assert_eq!(peek_u8(&b, &pos), Ok(0xBC));
    assert_eq!(pos, 5);
}

#[test]
fn short_reads_do_not_move_the_cursor() {
    let b = [1u8, 2, 3];
    let mut pos = 0usize;
    assert_eq!(get_i32(&b, &mut pos), Err(PacketError::NotEnoughBytes));
    assert_eq!(pos, 0);
    assert_eq!(get_u64(&b, &mut pos), Err(PacketError::NotEnoughBytes));
    assert_eq!(pos, 0);
    let mut pos = 3usize;
    assert_eq!(get_u8(&b, &mut pos), Err(PacketError::NotEnoughBytes));
    assert_eq!(peek_u8(&b, &pos), Err(PacketError::NotEnoughBytes));
    assert_eq!(pos, 3);
    let mut pos = 1usize;
    assert_eq!(skip(&b, &mut pos, 3), Err(PacketError::NotEnoughBytes));
    assert_eq!(pos, 1);
    assert_eq!(skip(&b, &mut pos, 2), Ok(()));
    assert_eq!(pos, 3);
    let mut pos = 2usize;
    assert_eq!(get_u16(&b, &mut pos), Err(PacketError::NotEnoughBytes));
    assert_eq!(pos, 2);
}

#[test]
fn strings_are_length_prefixed() {
    let b = [0u8, 4, b'n', b'a', b'm', b'e', 9];
    let mut pos = 0usize;
    assert_eq!(get_string(&b, &mut pos), Ok("name".to_string()));
    assert_eq!(pos, 6);
    // The length is there, the text is not all there yet.
    let short = [0u8, 4, b'n', b'a'];
    let mut pos = 0usize;
    assert_eq!(get_string(&short, &mut pos), Err(PacketError::NotEnoughBytes));
    assert_eq!(pos, 0);
}

#[test]
fn invalid_utf8_is_replaced() {
    let b = [0u8, 2, 0xFF, b'A'];
    let mut pos = 0usize;
    assert_eq!(get_string(&b, &mut pos), Ok("\u{FFFD}A".to_string()));
}

#[test]
fn floats_come_as_bit_patterns() {
    let mut out = Vec::new();
    put_u32(&mut out, 1.5f32.to_bits());
    put_u64(&mut out, (-2.25f64).to_bits());
    let mut pos = 0usize;
    assert_eq!(get_f32(&out, &mut pos).map(f32::from_bits), Ok(1.5));
    assert_eq!(get_f64(&out, &mut pos).map(f64::from_bits), Ok(-2.25));
}

#[test]
fn writers_and_bytes() {
    let mut out = Vec::new();
    put_u16(&mut out, 0xABCD);
    assert_eq!(out, vec![0xAB, 0xCD]);
    let mut pos = 0usize;
    assert_eq!(get_bytes(&out, &mut pos, 2), Ok(vec![0xAB, 0xCD]));
    assert_eq!(get_bytes(&out, &mut pos, 1), Err(PacketError::NotEnoughBytes));
    assert_eq!(pos, 2);
}
