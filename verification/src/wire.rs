//! The wire-format model: what the bytes of a varint, a zig-zag integer or a
//! length-delimited payload mean, stated at the specification level.

use vstd::prelude::*;

use crate::errors::Error;
use vstd::bytes::{
    spec_u32_from_le_bytes, spec_u32_to_le_bytes, spec_u64_from_le_bytes, spec_u64_to_le_bytes,
};

verus! {

/// Wire type of a varint payload.
pub const WIRE_TYPE_VARINT: u8 = 0;

/// Wire type of an eight-byte little-endian payload.
pub const WIRE_TYPE_FIXED64: u8 = 1;

/// Wire type of a payload prefixed by its own byte length.
pub const WIRE_TYPE_LENGTH_DELIMITED: u8 = 2;

/// Wire type opening a group; recognised only to be rejected.
pub const WIRE_TYPE_START_GROUP: u8 = 3;

/// Wire type closing a group; recognised only to be rejected.
pub const WIRE_TYPE_END_GROUP: u8 = 4;

/// Wire type of a four-byte little-endian payload.
pub const WIRE_TYPE_FIXED32: u8 = 5;

/// What reading the varint at the head of a byte sequence yields.
pub enum VarintOutcome {
    /// A complete varint: its value, and the number of bytes it occupies.
    Complete(u64, nat),
    /// Ten bytes are present and the tenth is neither 0 nor 1: the format
    /// leaves only one spare bit for the tenth byte to fill.
    Malformed,
    /// The bytes end before the varint does.
    Truncated,
}

/// Walks the little-endian base-128 groups of a varint, byte `k` next and
/// `acc` holding the payload bits gathered so far. Each of the first nine
/// bytes contributes seven payload bits below a continuation flag; a tenth
/// byte may only carry the sixty-fourth bit.
pub open spec fn varint_step(s: Seq<u8>, k: nat, acc: u64) -> VarintOutcome
    decreases 9 - k,
{
    if k >= s.len() {
        VarintOutcome::Truncated
    } else if k >= 9 {
        if s[9] == 0 {
            VarintOutcome::Complete(acc, 10)
        } else if s[9] == 1 {
            VarintOutcome::Complete(acc | (1u64 << 63u64), 10)
        } else {
            VarintOutcome::Malformed
        }
    } else {
        let acc2 = acc | (((s[k as int] & 0x7f) as u64) << (7 * k));
        if s[k as int] < 0x80 {
            VarintOutcome::Complete(acc2, (k + 1) as nat)
        } else {
            varint_step(s, (k + 1) as nat, acc2)
        }
    }
}

/// How many budget units the engine spends before the varint at the head of
/// `s` resolves: one per byte read, and one for a read that fails.
pub open spec fn varint_need(s: Seq<u8>) -> nat {
    match varint_step(s, 0, 0) {
        VarintOutcome::Complete(_, n) => n,
        VarintOutcome::Malformed => 10,
        VarintOutcome::Truncated => s.len() + 1,
    }
}

/// The outcome of a varint read against a byte sequence and a remaining
/// length budget: the value and its size in bytes, or the exact error.
/// The budget is spent before each byte is read, so exhausting it takes
/// priority over the byte source running dry.
pub open spec fn varint_read(s: Seq<u8>, budget: nat) -> Result<(u64, nat), Error> {
    if budget < varint_need(s) {
        Err(Error::BudgetExceeded)
    } else {
        match varint_step(s, 0, 0) {
            VarintOutcome::Complete(v, n) => Ok((v, n)),
            VarintOutcome::Malformed => Err(Error::MalformedVarint),
            VarintOutcome::Truncated => Err(Error::IoFailure),
        }
    }
}

/// Where the walk can end, relative to its starting byte and to the length
/// of the sequence.
pub proof fn lemma_varint_step_bounds(s: Seq<u8>, k: nat, acc: u64)
    requires
        k <= 9,
    ensures
        varint_step(s, k, acc) matches VarintOutcome::Complete(v, n) ==> k < n <= 10 && n
            <= s.len(),
        varint_step(s, k, acc) is Malformed ==> s.len() >= 10,
        varint_step(s, k, acc) is Truncated ==> s.len() <= 9 || k >= s.len(),
    decreases 9 - k,
{
    if k < s.len() && k < 9 {
        let acc2 = acc | (((s[k as int] & 0x7f) as u64) << (7 * k));
        if s[k as int] >= 0x80 {
            lemma_varint_step_bounds(s, (k + 1) as nat, acc2);
        }
    }
}

/// The outcome of reading a length-delimited payload: a varint length
/// followed by exactly that many raw bytes. Yields the payload and the total
/// number of bytes consumed, or the exact error: the declared length is
/// checked against the remaining budget before any payload byte is read.
pub open spec fn delimited_read(s: Seq<u8>, budget: nat) -> Result<(Seq<u8>, nat), Error> {
    match varint_read(s, budget) {
        Ok((v, n)) => {
            let m = v as usize;
            if budget - n < m as nat {
                Err(Error::BudgetExceeded)
            } else if s.skip(n as int).len() < m as nat {
                Err(Error::IoFailure)
            } else {
                Ok((s.skip(n as int).take(m as int), (n + m) as nat))
            }
        },
        Err(e) => Err(e),
    }
}

/// The outcome of skipping one field of unknown tag: how many bytes the skip
/// consumes, determined by the tag's wire type, or the exact error. Group
/// wire types are rejected as deprecated; wire types above five are not part
/// of the format.
pub open spec fn unknown_read(tag: u32, s: Seq<u8>, budget: nat) -> Result<nat, Error> {
    let wt = (tag % 8) as u8;
    if wt == WIRE_TYPE_VARINT {
        match varint_read(s, budget) {
            Ok((v, n)) => Ok(n),
            Err(e) => Err(e),
        }
    } else if wt == WIRE_TYPE_FIXED64 {
        if budget < 8 {
            Err(Error::BudgetExceeded)
        } else if s.len() < 8 {
            Err(Error::IoFailure)
        } else {
            Ok(8)
        }
    } else if wt == WIRE_TYPE_FIXED32 {
        if budget < 4 {
            Err(Error::BudgetExceeded)
        } else if s.len() < 4 {
            Err(Error::IoFailure)
        } else {
            Ok(4)
        }
    } else if wt == WIRE_TYPE_LENGTH_DELIMITED {
        match delimited_read(s, budget) {
            Ok((payload, n)) => Ok(n),
            Err(e) => Err(e),
        }
    } else if wt == WIRE_TYPE_START_GROUP || wt == WIRE_TYPE_END_GROUP {
        Err(Error::DeprecatedGroup)
    } else {
        Err(Error::UnknownWireType(wt))
    }
}

/// The varint encoding of a value: little-endian base-128 groups, a
/// continuation flag on every byte but the last.
pub open spec fn varint_enc(v: u64) -> Seq<u8>
    decreases v,
{
    if v < 0x80 {
        seq![v as u8]
    } else {
        seq![((v % 0x80) + 0x80) as u8] + varint_enc(v / 0x80)
    }
}

/// An encoded varint takes at most `k` bytes when its value fits in `7 * k`
/// bits.
proof fn lemma_enc_len_le(v: u64, k: nat)
    requires
        k >= 1,
        7 * k >= 64 || v < (1u64 << ((7 * k) as u64)),
    ensures
        varint_enc(v).len() <= k,
    decreases k,
{
    if v >= 0x80 {
        let w = v / 0x80;
        if 7 * (k - 1) >= 64 {
            lemma_enc_len_le(w, (k - 1) as nat);
        } else if 7 * k >= 64 {
            assert(7 * (k - 1) == 7 * k - 7);
            let sh = (7 * (k - 1)) as u64;
            assert(v / 0x80 < (1u64 << sh)) by (bit_vector)
                requires
                    sh >= 57 && sh < 64,
            ;
            lemma_enc_len_le(w, (k - 1) as nat);
        } else {
            if k == 1 {
                assert(1u64 << 7u64 == 0x80) by (bit_vector);
            }
            let sh = (7 * k) as u64;
            let shm = (7 * k - 7) as u64;
            assert(v / 0x80 < (1u64 << shm)) by (bit_vector)
                requires
                    v < (1u64 << sh) && shm + 7 == sh && sh < 64,
            ;
            assert((7 * (k - 1)) as u64 == shm);
            lemma_enc_len_le(w, (k - 1) as nat);
        }
    }
}

/// An encoded varint takes between one and ten bytes.
pub proof fn lemma_varint_enc_len(v: u64)
    ensures
        1 <= varint_enc(v).len() <= 10,
{
    lemma_enc_len_le(v, 10);
}

/// Walking a varint encoding placed at index `k` completes with exactly its
/// value shifted into place above `acc`, whatever follows it.
proof fn lemma_parse_enc(s: Seq<u8>, k: nat, acc: u64, v: u64, rest: Seq<u8>)
    requires
        k <= 9,
        k <= s.len(),
        k + varint_enc(v).len() <= 10,
        s.skip(k as int) == varint_enc(v) + rest,
        ((v << ((7 * k) as u64)) >> ((7 * k) as u64)) == v,
    ensures
        varint_step(s, k, acc) == VarintOutcome::Complete(
            acc | (v << ((7 * k) as u64)),
            (k + varint_enc(v).len()) as nat,
        ),
    decreases varint_enc(v).len(),
{
    let sh = (7 * k) as u64;
    assert(s.skip(k as int).len() >= 1);
    assert(s[k as int] == s.skip(k as int)[0]);
    if k == 9 {
        assert(v <= 1) by (bit_vector)
            requires
                ((v << 63u64) >> 63u64) == v,
        ;
        assert(varint_enc(v) == seq![v as u8]);
        assert(s[9] == v as u8);
        if v == 0 {
            assert(acc | (0u64 << 63u64) == acc) by (bit_vector);
        } else {
            assert(s[9] == 1);
        }
    } else if v < 0x80 {
        assert(varint_enc(v) == seq![v as u8]);
        assert(s[k as int] == v as u8);
        assert(s[k as int] < 0x80);
        assert((((v as u8) & 0x7f) as u64) == v) by (bit_vector)
            requires
                v < 0x80,
        ;
    } else {
        let b = ((v % 0x80) + 0x80) as u8;
        let w = v / 0x80;
        assert(s[k as int] == b);
        assert(b >= 0x80) by (bit_vector)
            requires
                b == ((v % 0x80) + 0x80) as u8,
        ;
        let m = ((b & 0x7f) as u64);
        let acc2 = acc | (m << sh);
        assert(s.skip(k + 1 as int) =~= varint_enc(w) + rest) by {
            assert(s.skip(k as int).skip(1) =~= s.skip(k + 1 as int));
            assert((seq![b] + varint_enc(w) + rest).skip(1) =~= varint_enc(w) + rest);
        }
        assert(((w << ((sh + 7) as u64)) >> ((sh + 7) as u64)) == w) by (bit_vector)
            requires
                sh <= 56,
                ((v << sh) >> sh) == v,
                w == v / 0x80,
        ;
        assert(k + 1 + varint_enc(w).len() <= 10);
        assert((7 * (k + 1)) as u64 == sh + 7);
        lemma_parse_enc(s, (k + 1) as nat, acc2, w, rest);
        assert((acc | (m << sh)) | (w << ((sh + 7) as u64)) == acc | (v << sh)) by (bit_vector)
            requires
                sh <= 56,
                ((v << sh) >> sh) == v,
                w == v / 0x80,
                m == ((((v % 0x80) + 0x80) as u8) & 0x7f) as u64,
        ;
    }
}

/// Round trip: the varint encoding of any 64-bit value, whatever bytes
/// follow it, decodes to exactly that value and spans exactly its own
/// length; with enough budget, a varint read returns it.
pub proof fn lemma_varint_round_trip(v: u64, rest: Seq<u8>)
    ensures
        varint_step(varint_enc(v) + rest, 0, 0) == VarintOutcome::Complete(
            v,
            varint_enc(v).len(),
        ),
        forall|budget: nat|
            budget >= varint_enc(v).len() ==> #[trigger] varint_read(varint_enc(v) + rest, budget)
                == Ok::<(u64, nat), Error>((v, varint_enc(v).len())),
{
    let s = varint_enc(v) + rest;
    lemma_varint_enc_len(v);
    assert(s.skip(0) =~= varint_enc(v) + rest);
    assert(((v << 0u64) >> 0u64) == v) by (bit_vector);
    lemma_parse_enc(s, 0, 0, v, rest);
    assert(0u64 | (v << 0u64) == v) by (bit_vector);
}

/// A ten-byte sequence whose first nine bytes all carry the continuation
/// flag and whose tenth is neither 0 nor 1 is malformed, never silently
/// truncated: with enough budget the read fails with the varint error.
pub proof fn lemma_varint_malformed_tail(s: Seq<u8>)
    requires
        s.len() >= 10,
        forall|i: int| 0 <= i < 9 ==> #[trigger] s[i] >= 0x80,
        s[9] != 0,
        s[9] != 1,
    ensures
        varint_step(s, 0, 0) is Malformed,
        forall|budget: nat| #[trigger] varint_read(s, budget) is Err,
        forall|budget: nat|
            budget >= 10 ==> #[trigger] varint_read(s, budget) == Err::<(u64, nat), Error>(
                Error::MalformedVarint,
            ),
        forall|budget: nat|
            budget < 10 ==> #[trigger] varint_read(s, budget) == Err::<(u64, nat), Error>(
                Error::BudgetExceeded,
            ),
{
    lemma_steps_to_malformed(s, 0, 0);
}

/// While every byte before the tenth carries the continuation flag, the walk
/// marches on to the tenth byte.
proof fn lemma_steps_to_malformed(s: Seq<u8>, k: nat, acc: u64)
    requires
        k <= 9,
        s.len() >= 10,
        forall|i: int| k <= i < 9 ==> #[trigger] s[i] >= 0x80,
        s[9] != 0,
        s[9] != 1,
    ensures
        varint_step(s, k, acc) is Malformed,
    decreases 9 - k,
{
    if k < 9 {
        let acc2 = acc | (((s[k as int] & 0x7f) as u64) << (7 * k));
        lemma_steps_to_malformed(s, (k + 1) as nat, acc2);
    }
}

/// The packed encoding of a sequence of varint items: their encodings, one
/// after another in order, with nothing between them.
pub open spec fn packed_varints_enc(vs: Seq<u64>) -> Seq<u8>
    decreases vs.len(),
{
    if vs.len() == 0 {
        Seq::empty()
    } else {
        varint_enc(vs[0]) + packed_varints_enc(vs.skip(1))
    }
}

/// The items a packed chunk of varints decodes to: one item per advancement
/// until the chunk is exhausted, or nothing if the chunk does not parse as
/// whole varints.
pub open spec fn packed_varints_dec(s: Seq<u8>) -> Option<Seq<u64>>
    decreases s.len(),
    via packed_varints_dec_decreases
{
    if s.len() == 0 {
        Some(Seq::empty())
    } else {
        match varint_step(s, 0, 0) {
            VarintOutcome::Complete(v, n) => match packed_varints_dec(s.skip(n as int)) {
                Some(t) => Some(seq![v] + t),
                None => None,
            },
            VarintOutcome::Malformed => None,
            VarintOutcome::Truncated => None,
        }
    }
}

#[via_fn]
proof fn packed_varints_dec_decreases(s: Seq<u8>) {
    lemma_varint_step_bounds(s, 0, 0);
}

/// Packed round trip: a chunk built from any sequence of items decodes to
/// exactly those items, as many as went in and in their original order.
pub proof fn lemma_packed_round_trip(vs: Seq<u64>)
    ensures
        packed_varints_dec(packed_varints_enc(vs)) == Some(vs),
    decreases vs.len(),
{
    if vs.len() == 0 {
        assert(packed_varints_dec(packed_varints_enc(vs)) == Some(Seq::<u64>::empty()));
        assert(vs =~= Seq::<u64>::empty());
    } else {
        let tail = packed_varints_enc(vs.skip(1));
        let s = varint_enc(vs[0]) + tail;
        let n = varint_enc(vs[0]).len();
        lemma_varint_enc_len(vs[0]);
        lemma_varint_round_trip(vs[0], tail);
        assert(s.skip(n as int) =~= tail);
        lemma_packed_round_trip(vs.skip(1));
        assert(seq![vs[0]] + vs.skip(1) =~= vs);
    }
}

/// The zig-zag image of a signed 32-bit value: `(n << 1) ^ (n >> 31)`, which
/// maps 0, -1, 1, -2, ... to 0, 1, 2, 3, ...
pub open spec fn zigzag_encode32(x: i32) -> u32 {
    if x >= 0 {
        (2 * x) as u32
    } else {
        (-2 * x - 1) as u32
    }
}

/// The signed 32-bit value a zig-zag image stands for: `(z >> 1) ^ -(z & 1)`.
pub open spec fn zigzag_decode32(z: u32) -> i32 {
    if z % 2 == 0 {
        (z / 2) as i32
    } else {
        (-1 - (z / 2)) as i32
    }
}

/// The zig-zag image of a signed 64-bit value.
pub open spec fn zigzag_encode64(x: i64) -> u64 {
    if x >= 0 {
        (2 * x) as u64
    } else {
        (-2 * x - 1) as u64
    }
}

/// The signed 64-bit value a zig-zag image stands for.
pub open spec fn zigzag_decode64(z: u64) -> i64 {
    if z % 2 == 0 {
        (z / 2) as i64
    } else {
        (-1 - (z / 2)) as i64
    }
}

/// Round trip: zig-zag decoding undoes zig-zag encoding for every signed
/// 32-bit value, boundary values included.
pub proof fn lemma_zigzag32_round_trip(x: i32)
    ensures
        zigzag_decode32(zigzag_encode32(x)) == x,
{
}

/// Round trip: zig-zag decoding undoes zig-zag encoding for every signed
/// 64-bit value, boundary values included.
pub proof fn lemma_zigzag64_round_trip(x: i64)
    ensures
        zigzag_decode64(zigzag_encode64(x)) == x,
{
}

/// Round trip: zig-zag encoding undoes zig-zag decoding, so the mapping is a
/// bijection between unsigned images and signed values, at either width.
pub proof fn lemma_zigzag_bijective(z32: u32, z64: u64)
    ensures
        zigzag_encode32(zigzag_decode32(z32)) == z32,
        zigzag_encode64(zigzag_decode64(z64)) == z64,
{
}

/// Round trip: a 32-bit value widened into the 64-bit varint domain and
/// truncated back is the original value, signed or unsigned; so is a signed
/// 64-bit value reinterpreted from the unsigned one.
pub proof fn lemma_width_round_trip(x: u32, y: i32, w: i64)
    ensures
        (x as u64) as u32 == x,
        ((y as u64) as i32) == y,
        ((w as u64) as i64) == w,
{
    assert((x as u64) as u32 == x) by (bit_vector);
    assert(((y as u64) as i32) == y) by (bit_vector);
    assert(((w as u64) as i64) == w) by (bit_vector);
}

/// Round trip: four little-endian bytes written from a 32-bit value read
/// back as that value, whatever bytes follow them.
pub proof fn lemma_fixed32_round_trip(x: u32, rest: Seq<u8>)
    ensures
        spec_u32_to_le_bytes(x).len() == 4,
        spec_u32_from_le_bytes((spec_u32_to_le_bytes(x) + rest).take(4)) == x,
{
    vstd::bytes::lemma_auto_spec_u32_to_from_le_bytes();
    assert((spec_u32_to_le_bytes(x) + rest).take(4) =~= spec_u32_to_le_bytes(x));
}

/// Round trip: eight little-endian bytes written from a 64-bit value read
/// back as that value, whatever bytes follow them.
pub proof fn lemma_fixed64_round_trip(x: u64, rest: Seq<u8>)
    ensures
        spec_u64_to_le_bytes(x).len() == 8,
        spec_u64_from_le_bytes((spec_u64_to_le_bytes(x) + rest).take(8)) == x,
{
    vstd::bytes::lemma_auto_spec_u64_to_from_le_bytes();
    assert((spec_u64_to_le_bytes(x) + rest).take(8) =~= spec_u64_to_le_bytes(x));
}

/// Round trip: a payload framed behind its own encoded length reads back as
/// exactly that payload, whatever bytes follow the frame, as soon as the
/// budget covers the frame.
pub proof fn lemma_delimited_round_trip(payload: Seq<u8>, rest: Seq<u8>, budget: nat)
    requires
        payload.len() <= usize::MAX,
        budget >= varint_enc(payload.len() as u64).len() + payload.len(),
    ensures
        delimited_read(varint_enc(payload.len() as u64) + payload + rest, budget) == Ok::<
            (Seq<u8>, nat),
            Error,
        >((payload, (varint_enc(payload.len() as u64).len() + payload.len()) as nat)),
{
    let v = payload.len() as u64;
    let enc = varint_enc(v);
    let n = enc.len();
    let s = enc + payload + rest;
    lemma_varint_enc_len(v);
    lemma_varint_round_trip(v, payload + rest);
    assert(s =~= enc + (payload + rest));
    assert(s.skip(n as int) =~= payload + rest);
    assert(v as usize as nat == payload.len());
    assert(s.skip(n as int).take(payload.len() as int) =~= payload);
}

/// Round trip: a bool carried as the varint 1 or 0 decodes back to itself.
pub proof fn lemma_bool_round_trip(b: bool)
    ensures
        ((if b {
            1u64
        } else {
            0u64
        }) != 0) == b,
{
}

/// Group rejection: a tag carrying either group wire type always fails with
/// the deprecated-group error, whatever the bytes and the budget.
pub proof fn lemma_group_rejected(tag: u32, s: Seq<u8>, budget: nat)
    requires
        tag % 8 == WIRE_TYPE_START_GROUP as u32 || tag % 8 == WIRE_TYPE_END_GROUP as u32,
    ensures
        unknown_read(tag, s, budget) == Err::<nat, Error>(Error::DeprecatedGroup),
{
}

} // verus!
