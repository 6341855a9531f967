//! The decoding engine: typed decode operations over a byte source, with an
//! explicit remaining-length budget for the current framing scope.

use vstd::prelude::*;

use crate::errors::Error;
use crate::message::MessageRead;
use crate::source::ByteSource;
use crate::wire::{
    delimited_read, unknown_read, varint_need, varint_read, varint_step, zigzag_decode32,
    zigzag_decode64, WIRE_TYPE_END_GROUP, WIRE_TYPE_FIXED32, WIRE_TYPE_FIXED64,
    WIRE_TYPE_LENGTH_DELIMITED, WIRE_TYPE_START_GROUP, WIRE_TYPE_VARINT,
};
use vstd::bytes::{spec_u32_from_le_bytes, spec_u64_from_le_bytes, u32_from_le_bytes,
    u64_from_le_bytes};
use vstd::std_specs::convert::FromSpec;
use vstd::utf8::{encode_utf8, valid_utf8};

verus! {

/// A protocol-buffers decoding engine.
///
/// The engine owns a byte source and a remaining-length budget: the number of
/// bytes the current framing scope still permits it to consume. The budget is
/// kept by explicit bookkeeping only, never inferred from the source.
pub struct Reader<R> {
    inner: R,
    len: usize,
}

impl<R: ByteSource> Reader<R> {
    /// The bytes the underlying source still holds.
    pub closed spec fn bytes(&self) -> Seq<u8> {
        self.inner.bytes()
    }

    /// The remaining length budget of the current framing scope.
    pub closed spec fn budget(&self) -> nat {
        self.len as nat
    }

    /// Creates a new protocol buffer reader with the maximum len of bytes to read.
    pub fn from_reader(r: R, len: usize) -> (res: Reader<R>)
        ensures
            res.bytes() == r.bytes(),
            res.budget() == len as nat,
    {
        Reader { inner: r, len }
    }

    /// Reads next tag: one varint, truncated to 32 bits. The low three bits
    /// are the wire type; the remaining bits are the field number.
    pub fn next_tag(&mut self) -> (r: Result<u32, Error>)
        ensures
            match varint_read(old(self).bytes(), old(self).budget()) {
                Ok((v, n)) => r == Ok::<u32, Error>(v as u32) && final(self).bytes() == old(
                    self,
                ).bytes().skip(n as int) && final(self).budget() == old(self).budget() - n,
                Err(e) => r == Err::<u32, Error>(e),
            },
    {
        match self.read_varint() {
            Ok(v) => Ok(v as u32),
            Err(e) => Err(e),
        }
    }

    /// Reads the next varint encoded u64.
    pub fn read_varint(&mut self) -> (r: Result<u64, Error>)
        ensures
            match varint_read(old(self).bytes(), old(self).budget()) {
                Ok((v, n)) => r == Ok::<u64, Error>(v) && final(self).bytes() == old(
                    self,
                ).bytes().skip(n as int) && final(self).budget() == old(self).budget() - n,
                Err(e) => r == Err::<u64, Error>(e),
            },
    {
        let ghost s0 = self.bytes();
        let ghost b0 = self.budget();
        proof {
            assert(self.bytes() =~= s0.skip(0));
        }
        let mut r: u64 = 0;
        let mut i: u32 = 0;
        let mut j: usize = 0;
        while j < 9
            invariant
                s0 == old(self).bytes(),
                b0 == old(self).budget(),
                j <= 9,
                i == 7 * j,
                j <= b0,
                j <= s0.len(),
                self.bytes() == s0.skip(j as int),
                self.budget() == b0 - j,
                varint_step(s0, 0, 0) == varint_step(s0, j as nat, r),
            decreases 9 - j,
        {
            if self.len == 0 {
                proof {
                    lemma_step_need(s0, j as nat, r);
                }
                return Err(Error::BudgetExceeded);
            }
            self.len = self.len - 1;
            let b = match self.inner.read_exact(1) {
                Ok(v) => {
                    proof {
                        assert(v@[0] == s0.skip(j as int)[0]);
                    }
                    v[0]
                },
                Err(e) => {
                    proof {
                        lemma_step_need(s0, j as nat, r);
                    }
                    return Err(e);
                },
            };
            proof {
                assert(self.bytes() =~= s0.skip(j + 1));
            }
            r = r | (((b & 0x7f) as u64) << i);
            if b < 0x80 {
                return Ok(r);
            }
            i = i + 7;
            j = j + 1;
        }
        // A tenth byte may appear only to carry the sixty-fourth bit.
        if self.len == 0 {
            proof {
                lemma_step_need(s0, 9, r);
            }
            return Err(Error::BudgetExceeded);
        }
        self.len = self.len - 1;
        let b = match self.inner.read_exact(1) {
            Ok(v) => {
                proof {
                    assert(v@[0] == s0.skip(9)[0]);
                }
                v[0]
            },
            Err(e) => {
                proof {
                    lemma_step_need(s0, 9, r);
                }
                return Err(e);
            },
        };
        proof {
            assert(self.bytes() =~= s0.skip(10));
        }
        match b {
            0 => Ok(r),
            1 => {
                r = r | (1u64 << 63u64);
                Ok(r)
            },
            _ => Err(Error::MalformedVarint),
        }
    }

    /// Reads int32 (varint, truncated to 32 bits and reinterpreted as signed).
    pub fn read_int32(&mut self) -> (r: Result<i32, Error>)
        ensures
            match varint_read(old(self).bytes(), old(self).budget()) {
                Ok((v, n)) => r == Ok::<i32, Error>(v as i32) && final(self).bytes() == old(
                    self,
                ).bytes().skip(n as int) && final(self).budget() == old(self).budget() - n,
                Err(e) => r == Err::<i32, Error>(e),
            },
    {
        match self.read_varint() {
            Ok(v) => Ok(v as i32),
            Err(e) => Err(e),
        }
    }

    /// Reads int64 (varint, reinterpreted as signed).
    pub fn read_int64(&mut self) -> (r: Result<i64, Error>)
        ensures
            match varint_read(old(self).bytes(), old(self).budget()) {
                Ok((v, n)) => r == Ok::<i64, Error>(v as i64) && final(self).bytes() == old(
                    self,
                ).bytes().skip(n as int) && final(self).budget() == old(self).budget() - n,
                Err(e) => r == Err::<i64, Error>(e),
            },
    {
        match self.read_varint() {
            Ok(v) => Ok(v as i64),
            Err(e) => Err(e),
        }
    }

    /// Reads uint32 (varint, truncated to 32 bits).
    pub fn read_uint32(&mut self) -> (r: Result<u32, Error>)
        ensures
            match varint_read(old(self).bytes(), old(self).budget()) {
                Ok((v, n)) => r == Ok::<u32, Error>(v as u32) && final(self).bytes() == old(
                    self,
                ).bytes().skip(n as int) && final(self).budget() == old(self).budget() - n,
                Err(e) => r == Err::<u32, Error>(e),
            },
    {
        match self.read_varint() {
            Ok(v) => Ok(v as u32),
            Err(e) => Err(e),
        }
    }

    /// Reads uint64 (varint).
    pub fn read_uint64(&mut self) -> (r: Result<u64, Error>)
        ensures
            match varint_read(old(self).bytes(), old(self).budget()) {
                Ok((v, n)) => r == Ok::<u64, Error>(v) && final(self).bytes() == old(
                    self,
                ).bytes().skip(n as int) && final(self).budget() == old(self).budget() - n,
                Err(e) => r == Err::<u64, Error>(e),
            },
    {
        self.read_varint()
    }

    /// Reads sint32 (varint followed by the zig-zag inverse on 32 bits).
    pub fn read_sint32(&mut self) -> (r: Result<i32, Error>)
        ensures
            match varint_read(old(self).bytes(), old(self).budget()) {
                Ok((v, n)) => r == Ok::<i32, Error>(zigzag_decode32(v as u32))
                    && final(self).bytes() == old(self).bytes().skip(n as int)
                    && final(self).budget() == old(self).budget() - n,
                Err(e) => r == Err::<i32, Error>(e),
            },
    {
        let n = match self.read_varint() {
            Ok(v) => v,
            Err(e) => return Err(e),
        };
        let z = n as u32;
        if z % 2 == 0 {
            Ok((z / 2) as i32)
        } else {
            Ok(-((z / 2) as i32) - 1)
        }
    }

    /// Reads sint64 (varint followed by the zig-zag inverse on 64 bits).
    pub fn read_sint64(&mut self) -> (r: Result<i64, Error>)
        ensures
            match varint_read(old(self).bytes(), old(self).budget()) {
                Ok((v, n)) => r == Ok::<i64, Error>(zigzag_decode64(v)) && final(self).bytes()
                    == old(self).bytes().skip(n as int) && final(self).budget() == old(
                    self,
                ).budget() - n,
                Err(e) => r == Err::<i64, Error>(e),
            },
    {
        let z = match self.read_varint() {
            Ok(v) => v,
            Err(e) => return Err(e),
        };
        if z % 2 == 0 {
            Ok((z / 2) as i64)
        } else {
            Ok(-((z / 2) as i64) - 1)
        }
    }

    /// Reads exactly `n` raw bytes, spending `n` budget units first.
    fn take_exact(&mut self, n: usize) -> (r: Result<Vec<u8>, Error>)
        ensures
            old(self).budget() < n as nat ==> r == Err::<Vec<u8>, Error>(Error::BudgetExceeded),
            old(self).budget() >= n as nat && old(self).bytes().len() < n as nat ==> r == Err::<
                Vec<u8>,
                Error,
            >(Error::IoFailure),
            old(self).budget() >= n as nat && old(self).bytes().len() >= n as nat ==> (r matches Ok(
                v,
            ) && v@ == old(self).bytes().take(n as int) && final(self).bytes() == old(
                self,
            ).bytes().skip(n as int) && final(self).budget() == old(self).budget() - n),
    {
        if self.len < n {
            return Err(Error::BudgetExceeded);
        }
        self.len = self.len - n;
        self.inner.read_exact(n)
    }

    /// Reads fixed64 (eight bytes, little endian).
    pub fn read_fixed64(&mut self) -> (r: Result<u64, Error>)
        ensures
            old(self).budget() < 8 ==> r == Err::<u64, Error>(Error::BudgetExceeded),
            old(self).budget() >= 8 && old(self).bytes().len() < 8 ==> r == Err::<u64, Error>(
                Error::IoFailure,
            ),
            old(self).budget() >= 8 && old(self).bytes().len() >= 8 ==> r == Ok::<u64, Error>(
                spec_u64_from_le_bytes(old(self).bytes().take(8)),
            ) && final(self).bytes() == old(self).bytes().skip(8) && final(self).budget() == old(
                self,
            ).budget() - 8,
    {
        let v = match self.take_exact(8) {
            Ok(v) => v,
            Err(e) => return Err(e),
        };
        Ok(u64_from_le_bytes(v.as_slice()))
    }

    /// Reads fixed32 (four bytes, little endian).
    pub fn read_fixed32(&mut self) -> (r: Result<u32, Error>)
        ensures
            old(self).budget() < 4 ==> r == Err::<u32, Error>(Error::BudgetExceeded),
            old(self).budget() >= 4 && old(self).bytes().len() < 4 ==> r == Err::<u32, Error>(
                Error::IoFailure,
            ),
            old(self).budget() >= 4 && old(self).bytes().len() >= 4 ==> r == Ok::<u32, Error>(
                spec_u32_from_le_bytes(old(self).bytes().take(4)),
            ) && final(self).bytes() == old(self).bytes().skip(4) && final(self).budget() == old(
                self,
            ).budget() - 4,
    {
        let v = match self.take_exact(4) {
            Ok(v) => v,
            Err(e) => return Err(e),
        };
        Ok(u32_from_le_bytes(v.as_slice()))
    }

    /// Reads sfixed64 (eight bytes, little endian, reinterpreted as signed).
    pub fn read_sfixed64(&mut self) -> (r: Result<i64, Error>)
        ensures
            old(self).budget() < 8 ==> r == Err::<i64, Error>(Error::BudgetExceeded),
            old(self).budget() >= 8 && old(self).bytes().len() < 8 ==> r == Err::<i64, Error>(
                Error::IoFailure,
            ),
            old(self).budget() >= 8 && old(self).bytes().len() >= 8 ==> r == Ok::<i64, Error>(
                spec_u64_from_le_bytes(old(self).bytes().take(8)) as i64,
            ) && final(self).bytes() == old(self).bytes().skip(8) && final(self).budget() == old(
                self,
            ).budget() - 8,
    {
        match self.read_fixed64() {
            Ok(v) => Ok(v as i64),
            Err(e) => Err(e),
        }
    }

    /// Reads sfixed32 (four bytes, little endian, reinterpreted as signed).
    pub fn read_sfixed32(&mut self) -> (r: Result<i32, Error>)
        ensures
            old(self).budget() < 4 ==> r == Err::<i32, Error>(Error::BudgetExceeded),
            old(self).budget() >= 4 && old(self).bytes().len() < 4 ==> r == Err::<i32, Error>(
                Error::IoFailure,
            ),
            old(self).budget() >= 4 && old(self).bytes().len() >= 4 ==> r == Ok::<i32, Error>(
                spec_u32_from_le_bytes(old(self).bytes().take(4)) as i32,
            ) && final(self).bytes() == old(self).bytes().skip(4) && final(self).budget() == old(
                self,
            ).budget() - 4,
    {
        match self.read_fixed32() {
            Ok(v) => Ok(v as i32),
            Err(e) => Err(e),
        }
    }

    /// Reads bool (varint, true iff nonzero).
    pub fn read_bool(&mut self) -> (r: Result<bool, Error>)
        ensures
            match varint_read(old(self).bytes(), old(self).budget()) {
                Ok((v, n)) => r == Ok::<bool, Error>(v != 0) && final(self).bytes() == old(
                    self,
                ).bytes().skip(n as int) && final(self).budget() == old(self).budget() - n,
                Err(e) => r == Err::<bool, Error>(e),
            },
    {
        match self.read_varint() {
            Ok(v) => Ok(v != 0),
            Err(e) => Err(e),
        }
    }

    /// Reads enum, encoded as i32 and converted through the supplied mapping.
    pub fn read_enum<E: From<i32>>(&mut self) -> (r: Result<E, Error>)
        ensures
            match varint_read(old(self).bytes(), old(self).budget()) {
                Ok((v, n)) => r is Ok && final(self).bytes() == old(self).bytes().skip(n as int)
                    && final(self).budget() == old(self).budget() - n && (r matches Ok(ev)
                    ==> call_ensures(E::from, (v as i32,), ev)) && (
                <E as FromSpec<i32>>::obeys_from_spec() ==> r == Ok::<E, Error>(
                    <E as FromSpec<i32>>::from_spec(v as i32),
                )),
                Err(e) => r == Err::<E, Error>(e),
            },
    {
        match self.read_int32() {
            Ok(v) => Ok(E::from(v)),
            Err(e) => Err(e),
        }
    }

    /// Reads bytes (a varint length followed by exactly that many raw bytes).
    pub fn read_bytes(&mut self) -> (r: Result<Vec<u8>, Error>)
        ensures
            match delimited_read(old(self).bytes(), old(self).budget()) {
                Ok((payload, n)) => r matches Ok(v) && v@ == payload && final(self).bytes() == old(
                    self,
                ).bytes().skip(n as int) && final(self).budget() == old(self).budget() - n,
                Err(e) => r == Err::<Vec<u8>, Error>(e),
            },
    {
        let len_val = match self.read_varint() {
            Ok(v) => v,
            Err(e) => return Err(e),
        };
        let len = len_val as usize;
        let v = match self.take_exact(len) {
            Ok(v) => v,
            Err(e) => return Err(e),
        };
        proof {
            let s = old(self).bytes();
            let b = old(self).budget();
            let (gv, gn) = varint_read(s, b)->Ok_0;
            crate::wire::lemma_varint_step_bounds(s, 0, 0);
            assert(self.bytes() =~= s.skip((gn + len as nat) as int));
        }
        Ok(v)
    }

    /// Reads string (bytes followed by UTF-8 validation; invalid UTF-8 is a
    /// decode error, not a panic).
    pub fn read_string(&mut self) -> (r: Result<String, Error>)
        ensures
            match delimited_read(old(self).bytes(), old(self).budget()) {
                Ok((payload, n)) => if valid_utf8(payload) {
                    r matches Ok(st) && encode_utf8(st@) == payload && final(self).bytes() == old(
                        self,
                    ).bytes().skip(n as int) && final(self).budget() == old(self).budget() - n
                } else {
                    r == Err::<String, Error>(Error::InvalidUtf8)
                },
                Err(e) => r == Err::<String, Error>(e),
            },
    {
        let v = match self.read_bytes() {
            Ok(v) => v,
            Err(e) => return Err(e),
        };
        string_from_utf8(v)
    }

    /// Reads packed repeated field (Vec<M>).
    ///
    /// Packed fields are stored as one contiguous length-delimited chunk of
    /// data, while regular repeated fields yield their tag on every
    /// occurrence. A new framing scope of the declared length is entered, the
    /// item reader runs until that scope's budget reaches zero, and the
    /// parent scope is then restored net of the declared length, whatever the
    /// item reader consumed. The item reader must spend budget on every item
    /// it yields, so the sequence is empty exactly for an empty chunk; an
    /// item reader's failure aborts the whole read and comes back verbatim,
    /// so an item that would need to read past the scope boundary surfaces
    /// as the same decode error as any other truncation.
    pub fn read_packed_repeated_field<M, F: Fn(&mut Self) -> Result<M, Error>>(
        &mut self,
        read: F,
    ) -> (r: Result<Vec<M>, Error>)
        requires
            forall|ir: &mut Self| call_requires(read, (ir,)),
            forall|ir: &mut Self, o: Result<M, Error>|
                call_ensures(read, (ir,), o) && o is Ok ==> final(ir).budget() < (*ir).budget(),
        ensures
            match varint_read(old(self).bytes(), old(self).budget()) {
                Ok((v, n)) => (old(self).budget() - n < v as usize as nat ==> r == Err::<
                    Vec<M>,
                    Error,
                >(Error::BudgetExceeded)) && (old(self).budget() - n >= v as usize as nat
                    ==> match r {
                    Ok(items) => final(self).budget() == old(self).budget() - n - (
                    v as usize as nat) && (items@.len() == 0 <==> v as usize as nat == 0),
                    Err(e) => exists|ir: &mut Self, oo: Result<M, Error>|
                        #[trigger] call_ensures(read, (ir,), oo) && oo == Err::<M, Error>(e) && (
                        *ir).budget() <= v as usize as nat,
                }) && (old(self).budget() - n >= v as usize as nat && v as usize as nat == 0
                    ==> (r matches Ok(items) && items@.len() == 0)) && (old(self).budget() - n
                    >= v as usize as nat && v as usize as nat != 0 ==> exists|
                    ir: &mut Self,
                    oo: Result<M, Error>,
                |
                    #[trigger] call_ensures(read, (ir,), oo)
                        && (*ir).bytes() == old(self).bytes().skip(n as int)
                        && (*ir).budget() == v as usize as nat
                        && (r matches Ok(items) ==> oo == Ok::<M, Error>(items@[0]))) && (r
                    matches Ok(items) ==> forall|q: int|
                    #![trigger items@[q]]
                    0 <= q < items@.len() ==> exists|ir: &mut Self, oo: Result<M, Error>|
                        #[trigger] call_ensures(read, (ir,), oo) && oo == Ok::<M, Error>(
                            items@[q],
                        )) && (r matches Ok(items) ==> forall|q: int|
                    #![trigger items@[q]]
                    0 <= q && q + 1 < items@.len() ==> exists|
                        ir1: &mut Self,
                        oo1: Result<M, Error>,
                        ir2: &mut Self,
                        oo2: Result<M, Error>,
                    |
                        #![trigger call_ensures(read, (ir1,), oo1), call_ensures(read, (ir2,), oo2)]
                        call_ensures(read, (ir1,), oo1) && call_ensures(read, (ir2,), oo2) && oo1
                            == Ok::<M, Error>(items@[q]) && oo2 == Ok::<M, Error>(items@[q + 1])
                            && (*ir2).bytes() == final(ir1).bytes()
                            && (*ir2).budget() == final(ir1).budget()) && (old(self).budget() - n
                    >= v as usize as nat && v as usize as nat != 0 ==> (r matches Ok(items)
                    ==> exists|ir: &mut Self, oo: Result<M, Error>|
                    #[trigger] call_ensures(read, (ir,), oo) && oo == Ok::<M, Error>(
                        items@[items@.len() - 1],
                    ) && final(ir).bytes() == final(self).bytes() && final(ir).budget() == 0)),
                Err(e) => r == Err::<Vec<M>, Error>(e),
            },
    {
        let ghost s0 = old(self).bytes();
        let ghost b0 = old(self).budget();
        let len_val = match self.read_varint() {
            Ok(v) => v,
            Err(e) => return Err(e),
        };
        let len = len_val as usize;
        if len > self.len {
            return Err(Error::BudgetExceeded);
        }
        let cur_len = self.len;
        self.len = len;
        let mut v: Vec<M> = Vec::new();
        match self.packed_items_into(&read, &mut v) {
            Ok(u) => u,
            Err(e) => return Err(e),
        };
        self.len = cur_len - len;
        proof {
            assert forall|q: int| #![trigger v@[q]] 0 <= q < v@.len() implies exists|
                ir: &mut Self,
                oo: Result<M, Error>,
            |
                #[trigger] call_ensures(read, (ir,), oo) && oo == Ok::<M, Error>(v@[q]) by {
                assert(*(&read) == read);
            }
        }
        Ok(v)
    }

    /// Decodes items into `v` until the current scope's budget reaches zero,
    /// one call of the item reader per item, in order. Recursion stands in
    /// for the scope's loop so that each level can pass on what the item
    /// reader's calls returned.
    fn packed_items_into<M, F: Fn(&mut Self) -> Result<M, Error>>(
        &mut self,
        read: &F,
        v: &mut Vec<M>,
    ) -> (r: Result<(), Error>)
        requires
            forall|ir: &mut Self| call_requires(*read, (ir,)),
            forall|ir: &mut Self, o: Result<M, Error>|
                call_ensures(*read, (ir,), o) && o is Ok ==> final(ir).budget() < (*ir).budget(),
        ensures
            final(v)@.len() >= old(v)@.len(),
            forall|q: int| 0 <= q < old(v)@.len() ==> #[trigger] final(v)@[q] == old(v)@[q],
            old(self).budget() == 0 ==> r == Ok::<(), Error>(()) && final(v)@ == old(v)@
                && final(self).bytes() == old(self).bytes() && final(self).budget() == old(
                self,
            ).budget(),
            r is Ok ==> final(self).budget() == 0,
            r is Ok && old(self).budget() != 0 ==> final(v)@.len() > old(v)@.len(),
            old(self).budget() != 0 ==> exists|ir: &mut Self, oo: Result<M, Error>|
                #[trigger] call_ensures(*read, (ir,), oo) && (*ir).bytes() == old(self).bytes()
                    && (*ir).budget() == old(self).budget() && (r is Ok ==> oo == Ok::<M, Error>(
                    final(v)@[old(v)@.len() as int],
                )),
            r is Ok ==> forall|q: int|
                #![trigger final(v)@[q]]
                old(v)@.len() <= q < final(v)@.len() ==> exists|ir: &mut Self, oo: Result<M, Error>|
                    #[trigger] call_ensures(*read, (ir,), oo) && oo == Ok::<M, Error>(
                        final(v)@[q],
                    ),
            r is Ok ==> forall|q: int|
                #![trigger final(v)@[q]]
                old(v)@.len() <= q && q + 1 < final(v)@.len() ==> exists|
                    ir1: &mut Self,
                    oo1: Result<M, Error>,
                    ir2: &mut Self,
                    oo2: Result<M, Error>,
                |
                    #![trigger call_ensures(*read, (ir1,), oo1), call_ensures(*read, (ir2,), oo2)]
                    call_ensures(*read, (ir1,), oo1) && call_ensures(*read, (ir2,), oo2) && oo1
                        == Ok::<M, Error>(final(v)@[q]) && oo2 == Ok::<M, Error>(final(v)@[q + 1])
                        && (*ir2).bytes() == final(ir1).bytes()
                        && (*ir2).budget() == final(ir1).budget(),
            r is Ok && old(self).budget() != 0 ==> exists|ir: &mut Self, oo: Result<M, Error>|
                #[trigger] call_ensures(*read, (ir,), oo) && oo == Ok::<M, Error>(
                    final(v)@[final(v)@.len() - 1],
                ) && final(ir).bytes() == final(self).bytes() && final(ir).budget() == 0,
            r matches Err(e) ==> exists|ir: &mut Self, oo: Result<M, Error>|
                #[trigger] call_ensures(*read, (ir,), oo) && oo == Err::<M, Error>(e) && (
                *ir).budget() <= old(self).budget(),
        decreases self.budget(),
    {
        if self.is_eof() {
            return Ok(());
        }
        let o = (*read)(&mut *self);
        let ghost go = o;
        let item = match o {
            Ok(m) => m,
            Err(e) => return Err(e),
        };
        let ghost mid = v@;
        v.push(item);
        proof {
            assert(v@[mid.len() as int] == item);
            assert(go == Ok::<M, Error>(item));
        }
        self.packed_items_into(read, v)
    }

    /// Reads a nested message: a varint length opens a new framing scope of
    /// exactly that many bytes, the message decodes itself inside it, and the
    /// parent scope is then restored net of the declared length — the
    /// declared length governs restoration, not the bytes actually consumed.
    pub fn read_message<M: MessageRead>(&mut self) -> (r: Result<M, Error>)
        ensures
            match varint_read(old(self).bytes(), old(self).budget()) {
                Ok((v, n)) => (old(self).budget() - n < v as usize as nat ==> r == Err::<M, Error>(
                    Error::BudgetExceeded,
                )) && (old(self).budget() - n >= v as usize as nat && r is Ok
                    ==> final(self).budget() == old(self).budget() - n - (v as usize as nat)) && (
                old(self).budget() - n >= v as usize as nat ==> exists|
                    ir: &mut Self,
                    oo: Result<M, Error>,
                |
                    #[trigger] call_ensures(M::from_reader::<R>, (ir,), oo)
                        && (*ir).bytes() == old(self).bytes().skip(n as int)
                        && (*ir).budget() == v as usize as nat
                        && (oo matches Ok(m) ==> r == Ok::<M, Error>(m))
                        && (oo matches Err(e) ==> r == Err::<M, Error>(e))),
                Err(e) => r == Err::<M, Error>(e),
            },
    {
        let len_val = match self.read_varint() {
            Ok(v) => v,
            Err(e) => return Err(e),
        };
        let len = len_val as usize;
        if len > self.len {
            return Err(Error::BudgetExceeded);
        }
        let cur_len = self.len;
        self.len = len;
        let msg = match M::from_reader(self) {
            Ok(m) => m,
            Err(e) => return Err(e),
        };
        self.len = cur_len - len;
        Ok(msg)
    }

    /// Reads unknown data, based on its tag value (which itself gives us the
    /// wire type in its low three bits) and discards it, spending exactly the
    /// skipped field's encoded size from the budget.
    pub fn read_unknown(&mut self, tag_value: u32) -> (r: Result<(), Error>)
        ensures
            match unknown_read(tag_value, old(self).bytes(), old(self).budget()) {
                Ok(c) => r == Ok::<(), Error>(()) && final(self).bytes() == old(
                    self,
                ).bytes().skip(c as int) && final(self).budget() == old(self).budget() - c,
                Err(e) => r == Err::<(), Error>(e) && ((e == Error::DeprecatedGroup || e matches
                    Error::UnknownWireType(_)) ==> final(self).bytes() == old(self).bytes()
                    && final(self).budget() == old(self).budget()),
            },
    {
        proof {
            assert(tag_value & 0x7 == tag_value % 8) by (bit_vector);
        }
        let wt = (tag_value & 0x7) as u8;
        match wt {
            WIRE_TYPE_VARINT => {
                match self.read_varint() {
                    Ok(v) => Ok(()),
                    Err(e) => Err(e),
                }
            },
            WIRE_TYPE_FIXED64 => {
                match self.take_exact(8) {
                    Ok(v) => Ok(()),
                    Err(e) => Err(e),
                }
            },
            WIRE_TYPE_FIXED32 => {
                match self.take_exact(4) {
                    Ok(v) => Ok(()),
                    Err(e) => Err(e),
                }
            },
            WIRE_TYPE_LENGTH_DELIMITED => {
                match self.read_bytes() {
                    Ok(v) => Ok(()),
                    Err(e) => Err(e),
                }
            },
            WIRE_TYPE_START_GROUP | WIRE_TYPE_END_GROUP => Err(Error::DeprecatedGroup),
            t => Err(Error::UnknownWireType(t)),
        }
    }

    /// Gets the remaining length of bytes not read yet.
    pub fn len(&self) -> (l: usize)
        ensures
            l as nat == self.budget(),
    {
        self.len
    }

    /// Gets the inner reader.
    pub fn inner(&mut self) -> (r: &mut R)
        ensures
            (*r).bytes() == old(self).bytes(),
            final(self).bytes() == final(r).bytes(),
            final(self).budget() == old(self).budget(),
    {
        &mut self.inner
    }

    /// Checks if the remaining length budget is exactly zero.
    pub fn is_eof(&self) -> (b: bool)
        ensures
            b == (self.budget() == 0),
    {
        self.len == 0
    }
}

/// Relies on String::from_utf8: it succeeds exactly on input that is valid
/// UTF-8 and returns the string those bytes encode.
#[verifier::external_body]
fn string_from_utf8(v: Vec<u8>) -> (r: Result<String, Error>)
    ensures
        match r {
            Ok(s) => valid_utf8(v@) && encode_utf8(s@) == v@,
            Err(e) => !valid_utf8(v@) && e == Error::InvalidUtf8,
        },
{
    match String::from_utf8(v) {
        Ok(s) => Ok(s),
        Err(_) => Err(Error::InvalidUtf8),
    }
}

/// When the walk of a varint stands at byte `k`, the whole read needs more
/// than `k` budget units.
proof fn lemma_step_need(s: Seq<u8>, k: nat, acc: u64)
    requires
        k <= 9,
        k <= s.len(),
        varint_step(s, 0, 0) == varint_step(s, k, acc),
    ensures
        varint_need(s) >= k + 1,
{
    crate::wire::lemma_varint_step_bounds(s, k, acc);
}

} // verus!
