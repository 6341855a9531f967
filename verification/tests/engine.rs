//! Edge cases of the decoding engine: malformed varints, framing exactness,
//! unknown-field skipping, group rejection and every error kind.

use protodec::errors::Error;
use protodec::packed::Packed;
use protodec::reader::Reader;
use protodec::source::{ByteSource, SliceSource};

fn enc_varint(buf: &mut Vec<u8>, mut v: u64) {
    loop {
        let b = (v & 0x7f) as u8;
        v >>= 7;
        if v == 0 {
            buf.push(b);
            break;
        } else {
            buf.push(b | 0x80);
        }
    }
}

fn reader_over(buf: &[u8]) -> Reader<SliceSource<'_>> {
    Reader::from_reader(SliceSource::new(buf), buf.len())
}

#[test]
fn varint_boundaries() {
    for v in [0u64, 1, 127, 128, 300, u64::MAX, u64::MAX - 1, 1 << 63] {
        let mut buf = Vec::new();
        enc_varint(&mut buf, v);
        let mut r = reader_over(&buf);
        assert_eq!(v, r.read_varint().unwrap());
        assert!(r.is_eof());
    }
}

#[test]
fn varint_non_canonical_tenth_zero() {
    // Nine continuation bytes and a zero tenth byte: value is the low bits.
    let buf = [0x81, 0x80, 0x80, 0x80, 0x80, 0x80, 0x80, 0x80, 0x80, 0x00];
    let mut r = reader_over(&buf);
    assert_eq!(1, r.read_varint().unwrap());
    assert!(r.is_eof());
}

#[test]
fn varint_malformed_tail() {
    // The tenth byte is neither 0 nor 1: only one spare bit may fill it.
    let buf = [0xff, 0xff, 0xff, 0xff, 0xff, 0xff, 0xff, 0xff, 0xff, 0x02];
    let mut r = reader_over(&buf);
    assert_eq!(Err(Error::MalformedVarint), r.read_varint());
}

#[test]
fn varint_truncated() {
    // The source ends while the continuation flag is still set, but the
    // declared budget goes on: the source runs dry first.
    let buf = [0x96];
    let mut r = Reader::from_reader(SliceSource::new(&buf), 5);
    assert_eq!(Err(Error::IoFailure), r.read_varint());
}

#[test]
fn varint_budget_exhausted() {
    // The budget is spent before the terminating byte is reached.
    let buf = [0x96, 0x96, 0x01];
    let mut r = Reader::from_reader(SliceSource::new(&buf), 2);
    assert_eq!(Err(Error::BudgetExceeded), r.read_varint());
}

#[test]
fn zigzag_boundaries() {
    for x in [0i32, -1, 1, i32::MIN, i32::MAX] {
        let mut buf = Vec::new();
        enc_varint(&mut buf, ((x << 1) ^ (x >> 31)) as u32 as u64);
        assert_eq!(x, reader_over(&buf).read_sint32().unwrap());
    }
    for x in [0i64, -1, 1, i64::MIN, i64::MAX] {
        let mut buf = Vec::new();
        enc_varint(&mut buf, ((x << 1) ^ (x >> 63)) as u64);
        assert_eq!(x, reader_over(&buf).read_sint64().unwrap());
    }
}

#[test]
fn int_boundaries() {
    for x in [0i32, -1, i32::MIN, i32::MAX] {
        let mut buf = Vec::new();
        enc_varint(&mut buf, x as i64 as u64);
        assert_eq!(x, reader_over(&buf).read_int32().unwrap());
    }
    for x in [0i64, -1, i64::MIN, i64::MAX] {
        let mut buf = Vec::new();
        enc_varint(&mut buf, x as u64);
        assert_eq!(x, reader_over(&buf).read_int64().unwrap());
    }
}

#[test]
fn fixed_boundaries() {
    let buf = u32::MAX.to_le_bytes();
    assert_eq!(u32::MAX, reader_over(&buf).read_fixed32().unwrap());
    let buf = u64::MAX.to_le_bytes();
    assert_eq!(u64::MAX, reader_over(&buf).read_fixed64().unwrap());
    let buf = i32::MIN.to_le_bytes();
    assert_eq!(i32::MIN, reader_over(&buf).read_sfixed32().unwrap());
    let buf = i64::MIN.to_le_bytes();
    assert_eq!(i64::MIN, reader_over(&buf).read_sfixed64().unwrap());
}

#[test]
fn fixed_budget_and_truncation() {
    let buf = [1, 2, 3];
    assert_eq!(Err(Error::BudgetExceeded), reader_over(&buf).read_fixed32());
    let buf = [1, 2, 3, 4];
    let mut r = Reader::from_reader(SliceSource::new(&buf[..3]), 4);
    assert_eq!(Err(Error::IoFailure), r.read_fixed32());
}

#[test]
fn string_invalid_utf8() {
    let mut buf = Vec::new();
    enc_varint(&mut buf, 2);
    buf.extend_from_slice(&[0xff, 0xfe]);
    assert_eq!(Err(Error::InvalidUtf8), reader_over(&buf).read_string());
}

#[test]
fn bytes_empty() {
    let mut buf = Vec::new();
    enc_varint(&mut buf, 0);
    let mut r = reader_over(&buf);
    assert_eq!(Vec::<u8>::new(), r.read_bytes().unwrap());
    assert!(r.is_eof());
}

#[test]
fn bytes_length_over_budget() {
    // The declared length exceeds the remaining budget: the engine fails
    // cleanly instead of underflowing its counter.
    let mut buf = Vec::new();
    enc_varint(&mut buf, 100);
    buf.extend_from_slice(&[0; 4]);
    assert_eq!(Err(Error::BudgetExceeded), reader_over(&buf).read_bytes());
}

#[test]
fn unknown_skip_each_wire_type() {
    // For each wire type, the skip leaves the budget down by exactly the
    // skipped field's encoded size, positioned at the next tag.
    let mut buf = Vec::new();
    enc_varint(&mut buf, 300); // varint field, two bytes
    let mut r = Reader::from_reader(SliceSource::new(&buf), buf.len() + 7);
    r.read_unknown(8).unwrap(); // field 1, wire type 0
    assert_eq!(7, r.len());

    let buf = [0u8; 8];
    let mut r = Reader::from_reader(SliceSource::new(&buf), 11);
    r.read_unknown(9).unwrap(); // field 1, wire type 1
    assert_eq!(3, r.len());

    let buf = [0u8; 4];
    let mut r = Reader::from_reader(SliceSource::new(&buf), 9);
    r.read_unknown(13).unwrap(); // field 1, wire type 5
    assert_eq!(5, r.len());

    let mut buf = Vec::new();
    enc_varint(&mut buf, 3);
    buf.extend_from_slice(&[7, 8, 9]);
    let mut r = Reader::from_reader(SliceSource::new(&buf), buf.len() + 2);
    r.read_unknown(10).unwrap(); // field 1, wire type 2
    assert_eq!(2, r.len());
}

#[test]
fn unknown_rejects_groups() {
    // Wire types 3 and 4 always fail with the deprecated-group error.
    let buf = [0u8; 16];
    let mut r = reader_over(&buf);
    assert_eq!(Err(Error::DeprecatedGroup), r.read_unknown(11));
    let mut r = reader_over(&buf);
    assert_eq!(Err(Error::DeprecatedGroup), r.read_unknown(12));
}

#[test]
fn unknown_rejects_undefined_wire_types() {
    let buf = [0u8; 16];
    let mut r = reader_over(&buf);
    assert_eq!(Err(Error::UnknownWireType(6)), r.read_unknown(14));
    let mut r = reader_over(&buf);
    assert_eq!(Err(Error::UnknownWireType(7)), r.read_unknown(15));
}

#[test]
fn message_framing_restores_parent_budget() {
    // The declared length governs restoration: a message that under-consumes
    // leaves its trailing bytes behind, and the parent budget still ends at
    // the pre-call budget minus the declared sub-length exactly.
    struct Empty;
    impl protodec::message::MessageRead for Empty {
        fn from_reader<R: ByteSource>(_r: &mut Reader<R>) -> Result<Self, Error> {
            Ok(Empty)
        }
    }
    let mut buf = Vec::new();
    enc_varint(&mut buf, 3);
    buf.extend_from_slice(&[1, 2, 3, 4, 5]);
    let mut r = reader_over(&buf);
    let _: Empty = r.read_message().unwrap();
    assert_eq!(buf.len() - 1 - 3, r.len());
}

#[test]
fn message_length_over_budget() {
    struct Empty;
    impl protodec::message::MessageRead for Empty {
        fn from_reader<R: ByteSource>(_r: &mut Reader<R>) -> Result<Self, Error> {
            Ok(Empty)
        }
    }
    let mut buf = Vec::new();
    enc_varint(&mut buf, 50);
    let r: Result<Empty, Error> = reader_over(&buf).read_message();
    assert!(matches!(r, Err(Error::BudgetExceeded)));
}

#[test]
fn packed_framing_restores_parent_budget() {
    let mut chunk = Vec::new();
    for x in [1u64, 200, 3] {
        enc_varint(&mut chunk, x);
    }
    let mut buf = Vec::new();
    enc_varint(&mut buf, chunk.len() as u64);
    buf.extend_from_slice(&chunk);
    buf.extend_from_slice(&[9, 9]);
    let mut r = reader_over(&buf);
    assert_eq!(vec![1u64, 200, 3], r.read_packed_repeated_field(|r| r.read_varint()).unwrap());
    assert_eq!(2, r.len());
}

#[test]
fn packed_item_crossing_scope_fails() {
    // An item that would need to read past the scope boundary surfaces as a
    // truncation error, never as a partial item.
    let mut buf = Vec::new();
    enc_varint(&mut buf, 1);
    buf.push(0x96); // a varint whose continuation crosses the scope
    buf.push(0x01);
    let r = reader_over(&buf).read_packed_repeated_field(|r| r.read_varint());
    assert_eq!(Err(Error::BudgetExceeded), r);
}

#[test]
fn packed_adapter_yields_items_in_order() {
    let values = [43u32, 54, 64, 234, 6123, 643];
    let mut chunk = Vec::new();
    for x in values {
        enc_varint(&mut chunk, x as u64);
    }
    let mut it = Packed::new(&chunk, |r: &mut Reader<SliceSource<'_>>| r.read_uint32());
    let mut got = Vec::new();
    while let Some(item) = it.next() {
        got.push(item.unwrap());
    }
    assert_eq!(&values[..], &got[..]);
}

#[test]
fn packed_adapter_empty_chunk() {
    let chunk: [u8; 0] = [];
    let mut it = Packed::new(&chunk, |r: &mut Reader<SliceSource<'_>>| r.read_uint32());
    assert!(it.next().is_none());
    assert!(it.next().is_none());
}

#[test]
fn next_tag_truncates_to_32_bits() {
    let mut buf = Vec::new();
    enc_varint(&mut buf, (5u64 << 32) | 26);
    assert_eq!(26, reader_over(&buf).next_tag().unwrap());
}

#[test]
fn len_and_eof_track_budget() {
    let buf = [0x05, 0x01];
    let mut r = reader_over(&buf);
    assert_eq!(2, r.len());
    assert!(!r.is_eof());
    r.read_varint().unwrap();
    assert_eq!(1, r.len());
    r.read_varint().unwrap();
    assert!(r.is_eof());
    assert_eq!(0, r.len());
}

#[test]
fn inner_exposes_source() {
    let buf = [0x07, 0x08];
    let mut r = reader_over(&buf);
    // Reading through the source directly moves bytes without touching the
    // budget: the budget is explicit bookkeeping only.
    let got = r.inner().read_exact(1).unwrap();
    assert_eq!(vec![0x07], got);
    assert_eq!(2, r.len());
    assert_eq!(8, r.read_varint().unwrap());
    assert_eq!(1, r.len());
}
