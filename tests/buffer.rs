use byte_buffer::ByteBuffer;

#[test]
fn test_base_rw() {
    let mut buf = ByteBuffer::with_capacity(100);
    buf.write_i8(123).unwrap();
    buf.flip();
    assert_eq!(buf.read_i8().unwrap(), 123);

    let mut buf = ByteBuffer::with_capacity(100);
    buf.write_i16(123).unwrap();
    buf.flip();
    assert_eq!(buf.read_i16().unwrap(), 123);

    let mut buf = ByteBuffer::with_capacity(100);
    buf.write_i32(123).unwrap();
    buf.flip();
    assert_eq!(buf.read_i32().unwrap(), 123);

    let mut buf = ByteBuffer::with_capacity(100);
    buf.write_i64(123).unwrap();
    buf.flip();
    assert_eq!(buf.read_i64().unwrap(), 123);

    let mut buf = ByteBuffer::with_capacity(100);
    buf.write_u8(123).unwrap();
    buf.flip();
    assert_eq!(buf.read_u8().unwrap(), 123);

    let mut buf = ByteBuffer::with_capacity(100);
    buf.write_u16(123).unwrap();
    buf.flip();
    assert_eq!(buf.read_u16().unwrap(), 123);

    let mut buf = ByteBuffer::with_capacity(100);
    buf.write_u32(123).unwrap();
    buf.flip();
    assert_eq!(buf.read_u32().unwrap(), 123);

    let mut buf = ByteBuffer::with_capacity(100);
    buf.write_u64(123).unwrap();
    buf.flip();
    assert_eq!(buf.read_u64().unwrap(), 123);

    let mut buf = ByteBuffer::with_capacity(100);
    let data = 123 as f32;
    buf.write_u32(data.to_bits()).unwrap();
    buf.flip();
    assert_eq!(f32::from_bits(buf.read_u32().unwrap()), data);

    let mut buf = ByteBuffer::with_capacity(100);
    let data = 123 as f64;
    buf.write_u64(data.to_bits()).unwrap();
    buf.flip();
    assert_eq!(f64::from_bits(buf.read_u64().unwrap()), data);

    let mut buf = ByteBuffer::with_capacity(100);
    buf.write_i8_at(20, 123).unwrap();
    assert_eq!(buf.read_i8_at(20).unwrap(), 123);
    buf.write_i16_at(20, 123).unwrap();
    assert_eq!(buf.read_i16_at(20).unwrap(), 123);
    buf.write_i32_at(20, 123).unwrap();
    assert_eq!(buf.read_i32_at(20).unwrap(), 123);
    buf.write_i64_at(20, 123).unwrap();
    assert_eq!(buf.read_i64_at(20).unwrap(), 123);
    buf.write_u8_at(20, 123).unwrap();
    assert_eq!(buf.read_u8_at(20).unwrap(), 123);
    buf.write_u16_at(20, 123).unwrap();
    assert_eq!(buf.read_u16_at(20).unwrap(), 123);
    buf.write_u32_at(20, 123).unwrap();
    assert_eq!(buf.read_u32_at(20).unwrap(), 123);
    buf.write_u64_at(20, 123).unwrap();
    assert_eq!(buf.read_u64_at(20).unwrap(), 123);
    let data = 123 as f32;
    buf.write_u32_at(20, data.to_bits()).unwrap();
    assert_eq!(f32::from_bits(buf.read_u32_at(20).unwrap()), data);
    let data = 123 as f64;
    buf.write_u64_at(20, data.to_bits()).unwrap();
    assert_eq!(f64::from_bits(buf.read_u64_at(20).unwrap()), data);
}

#[test]
fn test_combination_op() {
    let mut buf = ByteBuffer::with_capacity(100);
    buf.write_i8(1).unwrap();
    buf.write_u32(1.0f32.to_bits()).unwrap();
    buf.write_u16(12).unwrap();
    assert_eq!(buf.position(), 7);
    buf.flip();
    assert_eq!(buf.position(), 0);
    assert_eq!(buf.limit(), 7);
    assert_eq!(f32::from_bits(buf.read_u32_at(1).unwrap()), 1.0);
    assert_eq!(buf.read_u16_at(5).unwrap(), 12);
    assert_eq!(buf.read_i8().unwrap(), 1);
    assert_eq!(buf.position(), 1);
    assert_eq!(buf.remaining(), 6);
    buf.compact();
    assert_eq!(buf.position(), 0);
    assert_eq!(buf.limit(), 6);
    assert_eq!(buf.remaining(), 6);
    assert_eq!(f32::from_bits(buf.read_u32_at(0).unwrap()), 1.0);
    assert_eq!(buf.read_u16_at(4).unwrap(), 12);
    buf.clear();
    assert_eq!(buf.position(), 0);
    assert_eq!(buf.limit(), 100);
    let mut buf = ByteBuffer::from(buf.into_vec());
    buf.set_limit(6);
    assert_eq!(buf.position(), 0);
    assert_eq!(buf.limit(), 6);
    assert_eq!(buf.remaining(), 6);
    assert_eq!(f32::from_bits(buf.read_u32_at(0).unwrap()), 1.0);
    assert_eq!(buf.read_u16_at(4).unwrap(), 12);
    buf.clear();
    assert_eq!(buf.position(), 0);
    assert_eq!(buf.limit(), 100);
}

#[test]
fn test_varint() {
    let mut buf = ByteBuffer::with_capacity(100);
    let data = 1213145563;
    buf.write_varint(data).unwrap();
    buf.flip();
    assert_eq!(buf.read_varint().unwrap(), data);
    buf.clear();
    buf.write_varint_at(56, data).unwrap();
    assert_eq!(buf.read_varint_at(56).unwrap(), data);
}

#[test]
fn test_str() {
    let mut buf = ByteBuffer::with_capacity(100);
    let data = "asdadfasaf";
    buf.write_str(data).unwrap();
    buf.flip();
    assert_eq!(buf.read_str().unwrap(), data);
    buf.clear();
    buf.write_str_at(12, data).unwrap();
    assert_eq!(buf.read_str_at(12).unwrap(), data);
}

#[test]
fn test_bytes() {
    let mut buf = ByteBuffer::with_capacity(100);
    let bytes = vec![1, 3, 4];
    buf.write_bytes(bytes.as_ref()).unwrap();
    buf.flip();
    assert_eq!(Vec::from(buf.read_bytes(bytes.len()).unwrap()), bytes);
}

#[test]
fn test_error() {
    let mut buf = ByteBuffer::with_capacity(100);
    assert!(buf.write_i8_at(100, 1).is_err());
    assert!(buf.write_i16_at(100, 1).is_err());
    assert!(buf.write_i32_at(100, 1).is_err());
    assert!(buf.write_i64_at(100, 1).is_err());
    assert!(buf.write_u8_at(100, 1).is_err());
    assert!(buf.write_u16_at(100, 1).is_err());
    assert!(buf.write_u32_at(100, 1).is_err());
    assert!(buf.write_u64_at(100, 1).is_err());
    assert!(buf.write_u32_at(100, 1.0f32.to_bits()).is_err());
    assert!(buf.write_u64_at(100, 1.0f64.to_bits()).is_err());
    assert!(buf.write_str_at(100, "aaaa").is_err());
}
