//! A module to handle the `Packed` adapter.

use vstd::prelude::*;

use crate::reader::Reader;
use crate::source::{ByteSource, SliceSource};

verus! {

/// A lazy, finite sequence of items decoded from a packed repeated field.
///
/// Contrary to unpacked repeated fields, packed fields are contiguous in
/// memory: the adapter owns an independent engine scoped to the chunk it was
/// built from, and each advancement decodes exactly one item until the
/// scope's budget reaches zero.
pub struct Packed<'a, F> {
    reader: Reader<SliceSource<'a>>,
    read: F,
}

impl<'a, F> Packed<'a, F> {
    /// The bytes of the chunk not decoded yet.
    pub closed spec fn bytes(&self) -> Seq<u8> {
        self.reader.bytes()
    }

    /// The remaining length budget of the scoped engine.
    pub closed spec fn budget(&self) -> nat {
        self.reader.budget()
    }

    /// The item-decode function the adapter was built with.
    pub closed spec fn item_fn(&self) -> F {
        self.read
    }

    /// Creates a new `Packed` iterator based on the chunk of data of the
    /// packed fields and a read closure to parse each item.
    pub fn new(bytes: &'a [u8], read: F) -> (p: Packed<'a, F>)
        ensures
            p.bytes() == bytes@,
            p.budget() == bytes@.len(),
            p.item_fn() == read,
    {
        let reader = Reader::from_reader(SliceSource::new(bytes), bytes.len());
        Packed { reader, read }
    }
}

impl<'a, M, F: Fn(&mut Reader<SliceSource<'a>>) -> M> Packed<'a, F> {
    /// Advances the sequence: nothing once the scoped engine has reached its
    /// length budget, otherwise exactly one item decoded by the read closure
    /// run against the scoped engine, advancing it as a side effect.
    pub fn next(&mut self) -> (r: Option<M>)
        requires
            forall|ir: &mut Reader<SliceSource<'a>>| call_requires(old(self).item_fn(), (ir,)),
        ensures
            final(self).item_fn() == old(self).item_fn(),
            old(self).budget() == 0 ==> r is None && final(self).bytes() == old(self).bytes()
                && final(self).budget() == old(self).budget(),
            old(self).budget() != 0 ==> exists|
                ir: &mut Reader<SliceSource<'a>>,
                mm: M,
            |
                #[trigger] call_ensures(old(self).item_fn(), (ir,), mm) && r == Some::<M>(mm)
                    && (*ir).bytes() == old(self).bytes()
                    && (*ir).budget() == old(self).budget()
                    && final(ir).bytes() == final(self).bytes()
                    && final(ir).budget() == final(self).budget(),
    {
        if self.reader.is_eof() {
            return None;
        }
        proof {
            assert(self.read == old(self).item_fn());
        }
        let m = (self.read)(&mut self.reader);
        Some(m)
    }
}

} // verus!
