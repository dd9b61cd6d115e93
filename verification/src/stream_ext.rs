//! Fixed-size re-chunking of a byte stream: incoming blocks of arbitrary
//! size are concatenated and handed on in chunks of exactly `chunk_len`
//! bytes, the remainder following when the stream ends.

use vstd::prelude::*;

use crate::text::sub_bytes;

verus! {

/// The concatenation of a sequence of byte chunks.
pub open spec fn concat_of(chunks: Seq<Seq<u8>>) -> Seq<u8>
    decreases chunks.len(),
{
    if chunks.len() == 0 {
        Seq::empty()
    } else {
        concat_of(chunks.drop_last()) + chunks.last()
    }
}

/// Appending a chunk appends its bytes.
pub proof fn lemma_concat_push(chunks: Seq<Seq<u8>>, c: Seq<u8>)
    ensures
        concat_of(chunks.push(c)) == concat_of(chunks) + c,
{
    assert(chunks.push(c).drop_last() =~= chunks);
    assert(chunks.push(c).last() == c);
}

/// The views of a vector of chunks.
pub open spec fn chunks_view(chunks: Seq<Vec<u8>>) -> Seq<Seq<u8>> {
    chunks.map_values(|c: Vec<u8>| c@)
}

/// The re-chunking state: a bound and the bytes not yet handed on.
pub struct ChunkConcat {
    pub chunk_len: usize,
    pub buffer: Vec<u8>,
}

impl ChunkConcat {
    /// A drained chunker never holds a full chunk back.
    pub open spec fn wf(&self) -> bool {
        self.chunk_len > 0 && self.buffer@.len() < self.chunk_len
    }

    /// Starts re-chunking into chunks of `chunk_len` bytes.
    pub fn new(chunk_len: usize) -> (r: ChunkConcat)
        requires
            chunk_len > 0,
        ensures
            r.wf(),
            r.chunk_len == chunk_len,
            r.buffer@ == Seq::<u8>::empty(),
    {
        let r = ChunkConcat { chunk_len, buffer: Vec::new() };
        proof {
            assert(r.buffer@ =~= Seq::<u8>::empty());
        }
        r
    }

    /// Feeds one incoming block and hands back every chunk that is now
    /// complete: the chunks carry, in order, exactly the bytes held plus the
    /// block, except for the short remainder kept for the next block.
    pub fn push(&mut self, data: &[u8]) -> (out: Vec<Vec<u8>>)
        requires
            old(self).wf(),
        ensures
            final(self).wf(),
            final(self).chunk_len == old(self).chunk_len,
            concat_of(chunks_view(out@)) + final(self).buffer@ == old(self).buffer@
                + data@,
            forall|i: int| 0 <= i < out@.len() ==> (#[trigger] out@[i]@).len() == old(
                self,
            ).chunk_len,
    {
        let mut i: usize = 0;
        while i < data.len()
            invariant
                i <= data@.len(),
                self.chunk_len == old(self).chunk_len,
                self.buffer@ == old(self).buffer@ + data@.take(i as int),
            decreases data@.len() - i,
        {
            self.buffer.push(data[i]);
            i = i + 1;
            proof {
                assert(old(self).buffer@ + data@.take(i as int) =~= (old(self).buffer@
                    + data@.take(i - 1)).push(data@[i - 1]));
            }
        }
        proof {
            assert(data@.take(data@.len() as int) =~= data@);
        }
        let mut out: Vec<Vec<u8>> = Vec::new();
        proof {
            assert(chunks_view(out@) =~= Seq::<Seq<u8>>::empty());
            assert(concat_of(Seq::<Seq<u8>>::empty()) + self.buffer@ =~= self.buffer@);
        }
        while self.buffer.len() >= self.chunk_len
            invariant
                self.chunk_len == old(self).chunk_len,
                self.chunk_len > 0,
                concat_of(chunks_view(out@)) + self.buffer@ == old(self).buffer@
                    + data@,
                forall|j: int| 0 <= j < out@.len() ==> (#[trigger] out@[j]@).len() == old(
                    self,
                ).chunk_len,
            decreases self.buffer@.len(),
        {
            let chunk = sub_bytes(self.buffer.as_slice(), 0, self.chunk_len);
            let rest = sub_bytes(self.buffer.as_slice(), self.chunk_len, self.buffer.len());
            let ghost before = self.buffer@;
            let ghost out_prev = out@;
            let ghost c = chunk@;
            self.buffer = rest;
            out.push(chunk);
            proof {
                let lv_prev = chunks_view(out_prev);
                lemma_concat_push(lv_prev, c);
                assert(chunks_view(out@) =~= lv_prev.push(c));
                assert(concat_of(chunks_view(out@)) == concat_of(lv_prev) + c);
                assert(c + self.buffer@ =~= before);
                assert((concat_of(lv_prev) + c) + self.buffer@ =~= concat_of(lv_prev) + (c
                    + self.buffer@));
                assert(concat_of(chunks_view(out@)) + self.buffer@ == concat_of(
                    lv_prev,
                ) + before);
            }
        }
        out
    }

    /// Ends the stream: hands back the remainder, if any bytes are left.
    pub fn finish(&mut self) -> (r: Option<Vec<u8>>)
        requires
            old(self).wf(),
        ensures
            final(self).wf(),
            final(self).chunk_len == old(self).chunk_len,
            final(self).buffer@ == Seq::<u8>::empty(),
            match r {
                Some(rest) => rest@ == old(self).buffer@ && rest@.len() > 0,
                None => old(self).buffer@.len() == 0,
            },
    {
        if self.buffer.len() == 0 {
            proof {
                assert(self.buffer@ =~= Seq::<u8>::empty());
            }
            None
        } else {
            let rest = crate::text::copy_bytes(self.buffer.as_slice());
            self.buffer = Vec::new();
            proof {
                assert(self.buffer@ =~= Seq::<u8>::empty());
            }
            Some(rest)
        }
    }
}

} // verus!
