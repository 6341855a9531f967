//! Byte sources: the capability the decoding engine reads from.

use vstd::prelude::*;

use crate::errors::Error;

verus! {

/// A sequential, forward-only supply of bytes with a single operation: read
/// exactly `n` bytes, or fail without consuming anything if fewer remain.
pub trait ByteSource {
    /// The bytes still available, in the order they will be delivered.
    spec fn bytes(&self) -> Seq<u8>;

    /// Reads exactly `n` bytes.
    fn read_exact(&mut self, n: usize) -> (r: Result<Vec<u8>, Error>)
        ensures
            r matches Ok(v) ==> old(self).bytes().len() >= n && v@ == old(self).bytes().take(
                n as int,
            ) && final(self).bytes() == old(self).bytes().skip(n as int),
            r is Err ==> old(self).bytes().len() < n && r == Err::<Vec<u8>, Error>(
                Error::IoFailure,
            ) && final(self).bytes() == old(self).bytes(),
    ;
}

/// A byte source over a borrowed slice, delivering its bytes in order.
pub struct SliceSource<'a> {
    data: &'a [u8],
    pos: usize,
}

impl<'a> SliceSource<'a> {
    #[verifier::type_invariant]
    spec fn wf(&self) -> bool {
        self.pos <= self.data@.len()
    }

    /// Opens a source over all of `data`.
    pub fn new(data: &'a [u8]) -> (r: SliceSource<'a>)
        ensures
            r.bytes() == data@,
    {
        let r = SliceSource { data, pos: 0 };
        proof {
            assert(r.bytes() =~= data@);
        }
        r
    }
}

impl<'a> ByteSource for SliceSource<'a> {
    closed spec fn bytes(&self) -> Seq<u8> {
        self.data@.skip(self.pos as int)
    }

    fn read_exact(&mut self, n: usize) -> (r: Result<Vec<u8>, Error>) {
        proof {
            use_type_invariant(&*self);
        }
        if n > self.data.len() - self.pos {
            return Err(Error::IoFailure);
        }
        let end = self.pos + n;
        let mut v: Vec<u8> = Vec::new();
        let mut i: usize = self.pos;
        while i < end
            invariant
                *self == *old(self),
                self.pos <= i <= end <= self.data@.len(),
                end == self.pos + n,
                v@ == self.data@.subrange(self.pos as int, i as int),
            decreases end - i,
        {
            let b = *vstd::slice::slice_index_get(self.data, i);
            v.push(b);
            proof {
                assert(v@ =~= self.data@.subrange(self.pos as int, i + 1));
            }
            i += 1;
        }
        proof {
            assert(v@ =~= self.bytes().take(n as int));
            assert(self.data@.skip(end as int) =~= self.bytes().skip(n as int));
        }
        self.pos = end;
        Ok(v)
    }
}

} // verus!
