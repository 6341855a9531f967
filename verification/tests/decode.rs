//! The original round-trip checks: values written by hand in wire format,
//! then decoded and compared.

use protodec::errors::Error;
use protodec::message::MessageRead;
use protodec::reader::Reader;
use protodec::source::{ByteSource, SliceSource};

/// Appends the varint encoding of `v`.
fn enc_varint(buf: &mut Vec<u8>, mut v: u64) {
    loop {
        let b = (v & 0x7f) as u8;
        v >>= 7;
        if v == 0 {
            buf.push(b);
            break;
        } else {
            buf.push(b | 0x80);
        }
    }
}

fn zigzag32(x: i32) -> u32 {
    ((x << 1) ^ (x >> 31)) as u32
}

fn zigzag64(x: i64) -> u64 {
    ((x << 1) ^ (x >> 63)) as u64
}

fn reader_over(buf: &[u8]) -> Reader<SliceSource<'_>> {
    Reader::from_reader(SliceSource::new(buf), buf.len())
}

#[test]
fn test_varint() {
    let data: &[u8] = &[0x96, 0x01];
    let mut r = Reader::from_reader(SliceSource::new(data), data.len());
    assert_eq!(150, r.read_varint().unwrap());
    assert!(r.is_eof());
}

#[test]
fn wr_bytes() {
    let v = b"test_write_read";
    let mut buf = Vec::new();
    enc_varint(&mut buf, v.len() as u64);
    buf.extend_from_slice(v);
    let mut r = reader_over(&buf);
    assert_eq!(&v[..], &r.read_bytes().unwrap()[..]);
}

#[test]
fn wr_string() {
    let v = "test_write_read";
    let mut buf = Vec::new();
    enc_varint(&mut buf, v.len() as u64);
    buf.extend_from_slice(v.as_bytes());
    let mut r = reader_over(&buf);
    assert_eq!(v, r.read_string().unwrap());
}

#[derive(PartialEq, Eq, Debug, Clone, Copy)]
enum TestEnum {
    A,
    B,
    C,
}

impl From<i32> for TestEnum {
    fn from(v: i32) -> TestEnum {
        match v {
            0 => TestEnum::A,
            1 => TestEnum::B,
            2 => TestEnum::C,
            _ => unreachable!(),
        }
    }
}

#[test]
fn wr_enum() {
    let v = TestEnum::C;
    let mut buf = Vec::new();
    enc_varint(&mut buf, 2);
    let mut r = reader_over(&buf);
    assert_eq!(v, r.read_enum().unwrap());
}

#[derive(PartialEq, Eq, Debug, Clone, Default)]
struct TestMessage {
    id: Option<u32>,
    val: Vec<i64>,
}

impl MessageRead for TestMessage {
    fn from_reader<R: ByteSource>(r: &mut Reader<R>) -> Result<Self, Error> {
        let mut msg = Self::default();
        while !r.is_eof() {
            match r.next_tag() {
                Ok(10) => msg.id = Some(r.read_uint32()?),
                Ok(18) => msg.val.push(r.read_sint64()?),
                Ok(t) => {
                    r.read_unknown(t)?;
                }
                Err(e) => return Err(e),
            }
        }
        Ok(msg)
    }
}

#[test]
fn wr_message() {
    let v = TestMessage { id: Some(63), val: vec![53, 5, 76, 743, 23, 753] };
    // The message body: field 1 (tag 10) as a varint, field 2 (tag 18) as
    // zig-zag varints, one tagged occurrence per value.
    let mut body = Vec::new();
    enc_varint(&mut body, 10);
    enc_varint(&mut body, 63);
    for x in &v.val {
        enc_varint(&mut body, 18);
        enc_varint(&mut body, zigzag64(*x));
    }
    let mut buf = Vec::new();
    enc_varint(&mut buf, body.len() as u64);
    buf.extend_from_slice(&body);
    let mut r = reader_over(&buf);
    assert_eq!(v, r.read_message().unwrap());

    // The encoded byte length equals the advertised message length plus the
    // length prefix itself.
    assert_eq!(buf.len(), 1 + body.len());
}

#[test]
fn wr_packed_uint32() {
    let v: Vec<u32> = vec![43, 54, 64, 234, 6123, 643];
    let mut chunk = Vec::new();
    for x in &v {
        enc_varint(&mut chunk, *x as u64);
    }
    let mut buf = Vec::new();
    enc_varint(&mut buf, chunk.len() as u64);
    buf.extend_from_slice(&chunk);
    let mut r = reader_over(&buf);
    assert_eq!(v, r.read_packed_repeated_field(|r| r.read_uint32()).unwrap());
}

#[test]
fn wr_int32() {
    let mut buf = Vec::new();
    enc_varint(&mut buf, 145);
    assert_eq!(145, reader_over(&buf).read_int32().unwrap());
}

#[test]
fn wr_int64() {
    let mut buf = Vec::new();
    enc_varint(&mut buf, 145);
    assert_eq!(145, reader_over(&buf).read_int64().unwrap());
}

#[test]
fn wr_uint32() {
    let mut buf = Vec::new();
    enc_varint(&mut buf, 145);
    assert_eq!(145, reader_over(&buf).read_uint32().unwrap());
}

#[test]
fn wr_uint64() {
    let mut buf = Vec::new();
    enc_varint(&mut buf, 145);
    assert_eq!(145, reader_over(&buf).read_uint64().unwrap());
}

#[test]
fn wr_sint32() {
    let mut buf = Vec::new();
    enc_varint(&mut buf, zigzag32(145) as u64);
    assert_eq!(145, reader_over(&buf).read_sint32().unwrap());
}

#[test]
fn wr_sint64() {
    let mut buf = Vec::new();
    enc_varint(&mut buf, zigzag64(145));
    assert_eq!(145, reader_over(&buf).read_sint64().unwrap());
}

#[test]
fn wr_bool() {
    let mut buf = Vec::new();
    enc_varint(&mut buf, 1);
    assert!(reader_over(&buf).read_bool().unwrap());
}

#[test]
fn wr_fixed32() {
    let buf = 145u32.to_le_bytes().to_vec();
    assert_eq!(145, reader_over(&buf).read_fixed32().unwrap());
}

#[test]
fn wr_fixed64() {
    let buf = 145u64.to_le_bytes().to_vec();
    assert_eq!(145, reader_over(&buf).read_fixed64().unwrap());
}

#[test]
fn wr_sfixed32() {
    let buf = (-145i32).to_le_bytes().to_vec();
    assert_eq!(-145, reader_over(&buf).read_sfixed32().unwrap());
}

#[test]
fn wr_sfixed64() {
    let buf = (-145i64).to_le_bytes().to_vec();
    assert_eq!(-145, reader_over(&buf).read_sfixed64().unwrap());
}
