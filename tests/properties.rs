use byte_buffer::{varint_len, ByteBuffer, IOError, IOErrorCode};

#[test]
fn round_trip_extremes_every_width() {
    let mut buf = ByteBuffer::with_capacity(64);
    buf.write_u8(u8::MAX).unwrap();
    buf.write_u16(u16::MAX).unwrap();
    buf.write_u32(u32::MAX).unwrap();
    buf.write_u64(u64::MAX).unwrap();
    buf.write_i8(i8::MIN).unwrap();
    buf.write_i16(i16::MIN).unwrap();
    buf.write_i32(i32::MIN).unwrap();
    buf.write_i64(i64::MIN).unwrap();
    buf.write_i32(-1).unwrap();
    assert_eq!(buf.position(), 1 + 2 + 4 + 8 + 1 + 2 + 4 + 8 + 4);
    buf.flip();
    assert_eq!(buf.read_u8().unwrap(), u8::MAX);
    assert_eq!(buf.read_u16().unwrap(), u16::MAX);
    assert_eq!(buf.read_u32().unwrap(), u32::MAX);
    assert_eq!(buf.read_u64().unwrap(), u64::MAX);
    assert_eq!(buf.read_i8().unwrap(), i8::MIN);
    assert_eq!(buf.read_i16().unwrap(), i16::MIN);
    assert_eq!(buf.read_i32().unwrap(), i32::MIN);
    assert_eq!(buf.read_i64().unwrap(), i64::MIN);
    assert_eq!(buf.read_i32().unwrap(), -1);
    assert!(!buf.has_remaining());
    assert_eq!(buf.read_i64_at(22).unwrap(), i64::MIN);
}

#[test]
fn fixed_width_values_use_host_byte_order() {
    let mut buf = ByteBuffer::with_capacity(16);
    buf.write_u16(0x0102).unwrap();
    buf.write_u32(0x0304_0506).unwrap();
    buf.write_i64_at(8, -2).unwrap();
    let all = buf.as_slice();
    assert_eq!(&all[0..2], &0x0102u16.to_ne_bytes()[..]);
    assert_eq!(&all[2..6], &0x0304_0506u32.to_ne_bytes()[..]);
    assert_eq!(&all[8..16], &(-2i64).to_ne_bytes()[..]);
}

#[test]
fn cursor_accounting() {
    let mut buf = ByteBuffer::with_capacity(40);
    buf.write_u8(1).unwrap();
    assert_eq!(buf.position(), 1);
    buf.write_i16(2).unwrap();
    assert_eq!(buf.position(), 3);
    buf.write_u64(3).unwrap();
    assert_eq!(buf.position(), 11);
    buf.write_i32(4).unwrap();
    assert_eq!(buf.position(), 15);
    buf.write_u32_at(30, 9).unwrap();
    assert_eq!(buf.position(), 15);
    assert_eq!(buf.remaining(), 40 - 15);
    assert_eq!(buf.capacity(), 40);
}

#[test]
fn flip_compact_clear() {
    let mut buf = ByteBuffer::with_capacity(10);
    buf.write_bytes(&[10, 11, 12, 13, 14, 15]).unwrap();
    buf.flip();
    assert_eq!(buf.position(), 0);
    assert_eq!(buf.limit(), 6);
    assert_eq!(buf.read_bytes(2).unwrap(), &[10u8, 11][..]);
    buf.compact();
    assert_eq!(buf.position(), 0);
    assert_eq!(buf.limit(), 4);
    assert_eq!(buf.read_bytes_at(0, 4).unwrap(), &[12u8, 13, 14, 15][..]);
    buf.set_position(3);
    buf.clear();
    assert_eq!(buf.position(), 0);
    assert_eq!(buf.limit(), 10);
}

#[test]
fn set_limit_brings_position_back() {
    let mut buf = ByteBuffer::with_capacity(10);
    buf.set_position(8);
    buf.set_limit(5);
    assert_eq!(buf.limit(), 5);
    assert_eq!(buf.position(), 5);
    assert_eq!(buf.remaining(), 0);
}

#[test]
fn varint_round_trip_representative_values() {
    for &v in &[0u64, 1, 127, 128, 16384, 1213145563, u64::MAX] {
        let mut buf = ByteBuffer::with_capacity(32);
        buf.write_varint(v).unwrap();
        assert_eq!(buf.position(), varint_len(v));
        buf.flip();
        assert_eq!(buf.read_varint().unwrap(), v);
        assert_eq!(buf.position(), varint_len(v));
        buf.clear();
        buf.write_varint_at(7, v).unwrap();
        assert_eq!(buf.read_varint_at(7).unwrap(), v);
        assert_eq!(buf.position(), 0);
    }
}

#[test]
fn varint_lengths_and_bytes() {
    assert_eq!(varint_len(0), 1);
    assert_eq!(varint_len(127), 1);
    assert_eq!(varint_len(128), 2);
    assert_eq!(varint_len(16383), 2);
    assert_eq!(varint_len(16384), 3);
    assert_eq!(varint_len(u64::MAX), 10);
    let mut buf = ByteBuffer::with_capacity(4);
    buf.write_varint(300).unwrap();
    assert_eq!(buf.as_slice()[0..2].to_vec(), vec![0xAC, 0x02]);
}

#[test]
fn varint_malformed_input_is_rejected() {
    let mut unterminated = vec![0x80u8; 3];
    let buf = ByteBuffer::wrap(&mut unterminated);
    assert_eq!(buf.read_varint_at(0).unwrap_err().code(), IOErrorCode::BufferOverFlow);

    let mut too_long = vec![0x80u8; 10];
    too_long.push(0);
    let buf = ByteBuffer::wrap(&mut too_long);
    assert!(buf.read_varint_at(0).is_err());

    let mut too_large = vec![0xFFu8; 9];
    too_large.push(0x02);
    let mut buf = ByteBuffer::wrap(&mut too_large);
    assert!(buf.read_varint().is_err());
    assert_eq!(buf.position(), 0);

    let mut largest = vec![0xFFu8; 9];
    largest.push(0x01);
    let buf = ByteBuffer::wrap(&mut largest);
    assert_eq!(buf.read_varint_at(0).unwrap(), u64::MAX);
}

#[test]
fn string_round_trip_and_errors() {
    let mut buf = ByteBuffer::with_capacity(64);
    let text = "héllo, wörld";
    buf.write_str(text).unwrap();
    assert_eq!(buf.position(), 1 + text.len());
    buf.write_str_at(40, "").unwrap();
    buf.flip();
    assert_eq!(buf.read_str().unwrap(), text);
    assert_eq!(buf.position(), 1 + text.len());
    buf.set_limit(64);
    assert_eq!(buf.read_str_at(40).unwrap(), "");

    let mut short = vec![5u8, b'a', b'b'];
    let mut buf = ByteBuffer::wrap(&mut short);
    let err = buf.read_str().unwrap_err();
    assert_eq!(err.code(), IOErrorCode::BufferOverFlow);
    assert_eq!(buf.position(), 0);

    let mut bad = vec![2u8, 0xC3, 0x28];
    let mut buf = ByteBuffer::wrap(&mut bad);
    let err = buf.read_str().unwrap_err();
    assert_eq!(err.code(), IOErrorCode::Utf8Error);
    assert_eq!(buf.position(), 0);
    assert_eq!(buf.read_str_at(0).unwrap_err().code(), IOErrorCode::Utf8Error);
}

#[test]
fn overflow_leaves_state_unchanged() {
    let mut buf = ByteBuffer::with_capacity(8);
    buf.write_u32(0xAABB_CCDD).unwrap();
    let before = buf.as_slice().to_vec();
    assert_eq!(buf.write_u64(1).unwrap_err().code(), IOErrorCode::BufferOverFlow);
    assert!(buf.write_varint(u64::MAX).is_err());
    assert!(buf.write_str("hello").is_err());
    assert!(buf.write_bytes(&[1, 2, 3, 4, 5]).is_err());
    assert!(buf.write_u16_at(7, 1).is_err());
    assert!(buf.write_varint_at(6, 1 << 21).is_err());
    assert!(buf.write_bytes_at(usize::MAX, &[1]).is_err());
    assert_eq!(buf.position(), 4);
    assert_eq!(buf.as_slice().to_vec(), before);
    assert!(buf.read_u8_at(8).is_err());
    assert!(buf.read_bytes_at(5, 4).is_err());
    assert!(buf.read_all_at(9).is_err());
}

#[test]
fn read_all_consumes_the_rest() {
    let mut buf = ByteBuffer::with_capacity(6);
    buf.write_bytes(&[1, 2, 3, 4]).unwrap();
    buf.flip();
    buf.read_u8().unwrap();
    assert_eq!(buf.read_all_at(2).unwrap(), &[3u8, 4][..]);
    assert_eq!(buf.read_all().unwrap(), &[2u8, 3, 4][..]);
    assert_eq!(buf.position(), 4);
    assert_eq!(buf.read_all().unwrap().len(), 0);
}

#[test]
fn borrowed_buffer_writes_through_and_never_frees() {
    let mut storage = vec![0u8; 4];
    {
        let mut buf = ByteBuffer::wrap(&mut storage);
        assert!(!buf.is_owned());
        assert_eq!(buf.capacity(), 4);
        buf.write_u8(7).unwrap();
        buf.write_u8_at(3, 9).unwrap();
        assert!(buf.write_u8_at(4, 1).is_err());
    }
    assert_eq!(storage, vec![7, 0, 0, 9]);
    let owned = ByteBuffer::from(storage.clone());
    assert!(owned.is_owned());
    assert_eq!(owned.into_vec(), storage);
}

#[test]
fn error_values() {
    let e = IOError::create_buffer_overflow_err();
    assert_eq!(e.code(), IOErrorCode::BufferOverFlow);
    assert_eq!(e.message(), "buffer overflow");
    let e = IOError::new(IOErrorCode::Utf8Error, "bad text");
    assert_eq!(e.code(), IOErrorCode::Utf8Error);
    assert_eq!(e.message(), "bad text");
}

#[test]
fn slice_mut_writes_in_place_below_the_limit() {
    let mut buf = ByteBuffer::with_capacity(8);
    buf.set_limit(3);
    {
        let s = buf.as_slice_mut();
        assert_eq!(s.len(), 3);
        s[0] = 4;
        s[2] = 6;
    }
    assert_eq!(buf.read_u8_at(0).unwrap(), 4);
    assert_eq!(buf.read_u8_at(2).unwrap(), 6);
    assert_eq!(buf.capacity(), 8);
    assert_eq!(buf.position(), 0);
}
