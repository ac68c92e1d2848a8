//! A window onto a byte buffer shared by reference counting.
use std::sync::Arc;

use vstd::prelude::*;

use crate::codec::{le_u16, le_u32, le_u64, read_u16_le, read_u32_le, read_u64_le};

verus! {

/// The bytes `bytes[offset..offset + len]`; clones share the buffer.
#[derive(Clone)]
pub struct Data {
    bytes: Arc<Vec<u8>>,
    offset: usize,
    len: usize,
}

impl View for Data {
    type V = Seq<u8>;

    closed spec fn view(&self) -> Seq<u8> {
        (*self.bytes)@.subrange(self.offset as int, self.offset + self.len)
    }
}

impl Data {
    pub closed spec fn wf(&self) -> bool {
        self.offset + self.len <= (*self.bytes)@.len() <= usize::MAX
    }

    pub proof fn lemma_len_bound(&self)
        requires
            self.wf(),
        ensures
            self@.len() <= usize::MAX,
    {
    }

    /// The window `bytes[offset..offset + len]`.
    pub fn shared(bytes: Arc<Vec<u8>>, offset: usize, len: usize) -> (r: Data)
        requires
            offset + len <= (*bytes)@.len(),
        ensures
            r.wf(),
            r@ == (*bytes)@.subrange(offset as int, offset + len),
    {
        let total: usize = bytes.len();
        assert(offset + len <= total);
        Data { bytes, offset, len }
    }

    pub fn len(&self) -> (r: usize)
        requires
            self.wf(),
        ensures
            r == self@.len(),
    {
        self.len
    }

    /// The sub-window `self[offset..offset + len]`, sharing the same buffer.
    pub fn range(&self, offset: usize, len: usize) -> (r: Data)
        requires
            self.wf(),
            offset + len <= self@.len(),
        ensures
            r.wf(),
            r@ == self@.subrange(offset as int, offset + len),
    {
        let r = Data { bytes: self.bytes.clone(), offset: self.offset + offset, len };
        assert(r@ =~= self@.subrange(offset as int, offset + len));
        r
    }

    /// The bytes of the window, copied.
    pub fn to_vec(&self) -> (r: Vec<u8>)
        requires
            self.wf(),
        ensures
            r@ == self@,
    {
        let v: &Vec<u8> = &*self.bytes;
        let mut out: Vec<u8> = Vec::new();
        let mut i: usize = 0;
        while i < self.len
            invariant
                self.wf(),
                v@ == (*self.bytes)@,
                i <= self.len,
                out@ == self@.subrange(0, i as int),
            decreases self.len - i,
        {
            out.push(v[self.offset + i]);
            i = i + 1;
            assert(out@ =~= self@.subrange(0, i as int));
        }
        assert(out@ =~= self@);
        out
    }

    pub fn read_u16(&self, off: usize) -> (r: u16)
        requires
            self.wf(),
            off + 2 <= self@.len(),
        ensures
            r == le_u16(self@.subrange(off as int, off + 2)),
    {
        let v: &Vec<u8> = &*self.bytes;
        assert(v@.subrange(self.offset + off, self.offset + off + 2) =~= self@.subrange(
            off as int,
            off + 2,
        ));
        read_u16_le(v, self.offset + off)
    }

    pub fn read_u32(&self, off: usize) -> (r: u32)
        requires
            self.wf(),
            off + 4 <= self@.len(),
        ensures
            r == le_u32(self@.subrange(off as int, off + 4)),
    {
        let v: &Vec<u8> = &*self.bytes;
        assert(v@.subrange(self.offset + off, self.offset + off + 4) =~= self@.subrange(
            off as int,
            off + 4,
        ));
        read_u32_le(v, self.offset + off)
    }

    pub fn read_u64(&self, off: usize) -> (r: u64)
        requires
            self.wf(),
            off + 8 <= self@.len(),
        ensures
            r == le_u64(self@.subrange(off as int, off + 8)),
    {
        let v: &Vec<u8> = &*self.bytes;
        assert(v@.subrange(self.offset + off, self.offset + off + 8) =~= self@.subrange(
            off as int,
            off + 8,
        ));
        read_u64_le(v, self.offset + off)
    }
}

} // verus!
