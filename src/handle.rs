//! A seekable, readable and writable byte region held in memory.
use vstd::prelude::*;

verus! {

/// `d` with `b` written over it from `p`, growing it where `b` runs past its end.
pub open spec fn splice(d: Seq<u8>, p: int, b: Seq<u8>) -> Seq<u8> {
    if p + b.len() < d.len() {
        d.subrange(0, p) + b + d.subrange(p + b.len(), d.len() as int)
    } else {
        d.subrange(0, p) + b
    }
}

/// Bytes before the write position, and bytes after the written run, are kept.
pub proof fn lemma_splice_keeps(d: Seq<u8>, p: int, b: Seq<u8>, lo: int, hi: int)
    requires
        0 <= p <= d.len(),
        0 <= lo <= hi,
        hi <= p || (p + b.len() <= lo && hi <= d.len()),
    ensures
        splice(d, p, b).subrange(lo, hi) == d.subrange(lo, hi),
        splice(d, p, b).subrange(p, p + b.len()) == b,
        splice(d, p, b).len() == if p + b.len() < d.len() {
            d.len() as int
        } else {
            p + b.len()
        },
{
    assert(splice(d, p, b).subrange(lo, hi) =~= d.subrange(lo, hi));
    assert(splice(d, p, b).subrange(p, p + b.len()) =~= b);
}

/// The region and the position of the next read or write.
pub struct ByteHandle {
    pub data: Vec<u8>,
    pub pos: usize,
}

impl ByteHandle {
    pub open spec fn wf(&self) -> bool {
        self.pos <= self.data@.len()
    }

    /// A handle on `data`, positioned at its start.
    pub fn new(data: Vec<u8>) -> (r: ByteHandle)
        ensures
            r.wf(),
            r.data@ == data@,
            r.pos == 0,
    {
        ByteHandle { data, pos: 0 }
    }

    pub fn position(&self) -> (r: u64)
        ensures
            r == self.pos,
    {
        self.pos as u64
    }

    /// Moves to absolute offset `p`; the region cannot be left.
    pub fn seek_start(&mut self, p: u64) -> (r: bool)
        requires
            old(self).wf(),
        ensures
            final(self).wf(),
            final(self).data == old(self).data,
            r == (p <= old(self).data@.len()),
            r ==> final(self).pos == p,
            !r ==> final(self).pos == old(self).pos,
    {
        if p <= self.data.len() as u64 {
            self.pos = p as usize;
            true
        } else {
            false
        }
    }

    /// Moves to the end of the region.
    pub fn seek_end(&mut self)
        ensures
            final(self).wf(),
            final(self).data == old(self).data,
            final(self).pos == old(self).data@.len(),
    {
        self.pos = self.data.len();
    }

    /// Writes `b` at the position, over what is there and past the end, and
    /// moves after it.
    pub fn write_all(&mut self, b: &[u8])
        requires
            old(self).wf(),
            old(self).pos + b@.len() <= usize::MAX,
        ensures
            final(self).wf(),
            final(self).data@ == splice(old(self).data@, old(self).pos as int, b@),
            final(self).pos == old(self).pos + b@.len(),
    {
        let ghost start_data = self.data@;
        let ghost start_pos = self.pos as int;
        let mut i: usize = 0;
        assert(splice(start_data, start_pos, b@.take(0)) =~= start_data);
        while i < b.len()
            invariant
                0 <= start_pos,
                start_pos + b@.len() <= usize::MAX,
                start_pos <= start_data.len(),
                i <= b@.len(),
                self.pos == start_pos + i,
                self.data@ == splice(start_data, start_pos, b@.take(i as int)),
            decreases b@.len() - i,
        {
            let ghost before = self.data@;
            if self.pos < self.data.len() {
                self.data.set(self.pos, b[i]);
            } else {
                self.data.push(b[i]);
            }
            assert(self.data@ =~= splice(start_data, start_pos, b@.take(i + 1)));
            self.pos = self.pos + 1;
            i = i + 1;
        }
        assert(b@.take(i as int) =~= b@);
    }

    /// The region.
    pub fn into_inner(self) -> (r: Vec<u8>)
        ensures
            r@ == self.data@,
    {
        self.data
    }
}

} // verus!
