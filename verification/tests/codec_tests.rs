use xux::codec::{put_bytes, put_color, put_coord, put_i16, put_i32, put_i8, put_strz, put_u16, put_u32, put_u64, put_u8, Reader};
use xux::error::ErrorKind;
use xux::list::{list_to_buf, List};

#[test]
fn reader_reads_little_endian() {
    let b = [0x01u8, 0x02, 0xff, 0xff, 0x78, 0x56, 0x34, 0x12, 0xfe, 0xff, 0xff, 0xff];
    let mut r = Reader::new(&b);
    assert_eq!(r.u16().unwrap(), 0x0201);
    assert_eq!(r.i16().unwrap(), -1);
    assert_eq!(r.u32().unwrap(), 0x12345678);
    assert_eq!(r.i32().unwrap(), -2);
    assert!(r.is_empty());
    assert_eq!(r.u8().unwrap_err().kind, ErrorKind::Eof);
}

#[test]
fn reader_wide_values_and_coords() {
    let mut w = Vec::new();
    put_u64(&mut w, 0x0102030405060708);
    put_coord(&mut w, -3, 4);
    put_color(&mut w, 1, 2, 3, 4);
    put_i8(&mut w, -2);
    let mut r = Reader::new(&w);
    assert_eq!(r.u64().unwrap(), 0x0102030405060708);
    assert_eq!(r.coord().unwrap(), (-3, 4));
    assert_eq!(r.color().unwrap(), (1, 2, 3, 4));
    assert_eq!(r.i8().unwrap(), -2);
    assert_eq!(w[0], 0x08);
}

#[test]
fn failed_read_keeps_position() {
    let b = [1u8, 2, 3];
    let mut r = Reader::new(&b);
    r.u8().unwrap();
    assert_eq!(r.u32().unwrap_err().kind, ErrorKind::Eof);
    assert_eq!(r.position(), 1);
    assert_eq!(r.remaining(), 2);
    assert_eq!(r.read_exact(2).unwrap(), vec![2, 3]);
}

#[test]
fn writers_write_little_endian() {
    let mut w = Vec::new();
    put_u8(&mut w, 7);
    put_u16(&mut w, 0x1234);
    put_i16(&mut w, -2);
    put_u32(&mut w, 0xdeadbeef);
    put_i32(&mut w, -1);
    put_strz(&mut w, "hé");
    put_bytes(&mut w, &[9, 9]);
    assert_eq!(
        w,
        vec![7, 0x34, 0x12, 0xfe, 0xff, 0xef, 0xbe, 0xad, 0xde, 0xff, 0xff, 0xff, 0xff, b'h', 0xc3, 0xa9, 0, 9, 9]
    );
}

#[test]
fn list_roundtrip() {
    let items = vec![
        List::Int(-5),
        List::Str("abc".to_string()),
        List::Coord((1, -1)),
        List::Uint8(200),
        List::Uint16(60000),
        List::Color((1, 2, 3, 4)),
        List::Int8(-1),
        List::Int16(-300),
        List::Nil,
        List::Float32(0x3f800000),
        List::Float64(0x3ff0000000000000),
    ];
    let mut w = Vec::new();
    list_to_buf(&items, &mut w).unwrap();
    assert_eq!(w[0], 1);
    assert_eq!(*w.last().unwrap(), 0);
    let mut r = Reader::new(&w);
    let back = List::from_buf(&mut r).unwrap();
    assert!(r.is_empty());
    assert_eq!(format!("{:?}", back), format!("{:?}", items));
}

#[test]
fn list_with_nested_list_decodes() {
    // INT 1, TTOL [ STR "x", NIL ], UINT8 9, END
    let b = [1u8, 1, 0, 0, 0, 8, 2, b'x', 0, 12, 0, 4, 9, 0];
    let mut r = Reader::new(&b);
    let v = List::from_buf(&mut r).unwrap();
    assert_eq!(
        format!("{:?}", v),
        format!("{:?}", vec![List::Int(1), List::Ttol(vec![List::Str("x".into()), List::Nil]), List::Uint8(9)])
    );
}

#[test]
fn list_errors() {
    let mut r = Reader::new(&[42u8]);
    assert_eq!(List::from_buf(&mut r).unwrap_err().kind, ErrorKind::UnknownList);
    let mut w = Vec::new();
    assert_eq!(list_to_buf(&[List::Int(1), List::Ttol(vec![])], &mut w).unwrap_err().kind, ErrorKind::NotImplemented);
    assert_eq!(w, vec![1, 1, 0, 0, 0]);
    let mut r = Reader::new(&[1u8, 1, 0]);
    assert_eq!(List::from_buf(&mut r).unwrap_err().kind, ErrorKind::Eof);
}
