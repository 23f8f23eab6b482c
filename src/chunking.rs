//! Cutting a stream of lines into chunks of a fixed number of lines.
use vstd::prelude::*;

verus! {

/// Lines gathered for the chunk being filled.
pub struct ChunkBuffer {
    chunk_size: usize,
    pending: Vec<String>,
}

impl ChunkBuffer {
    pub closed spec fn size_spec(&self) -> nat {
        self.chunk_size as nat
    }

    /// The lines gathered and not yet handed out.
    pub closed spec fn pending_spec(&self) -> Seq<String> {
        self.pending@
    }

    /// Fewer lines are pending than make a chunk.
    pub open spec fn wf(&self) -> bool {
        self.size_spec() > 0 && self.pending_spec().len() < self.size_spec()
    }

    /// An empty buffer for chunks of `chunk_size` lines.
    pub fn new(chunk_size: usize) -> (r: ChunkBuffer)
        requires
            chunk_size > 0,
        ensures
            r.wf(),
            r.size_spec() == chunk_size,
            r.pending_spec() == Seq::<String>::empty(),
    {
        ChunkBuffer { chunk_size, pending: Vec::new() }
    }

    /// Adds a line; hands out the chunk once it holds `chunk_size` lines.
    pub fn push_line(&mut self, line: String) -> (r: Option<Vec<String>>)
        requires
            old(self).wf(),
        ensures
            final(self).wf(),
            final(self).size_spec() == old(self).size_spec(),
            old(self).pending_spec().len() + 1 == old(self).size_spec() ==> r is Some && r->0@
                == old(self).pending_spec().push(line) && final(self).pending_spec() == Seq::<
                String,
            >::empty(),
            old(self).pending_spec().len() + 1 < old(self).size_spec() ==> r is None
                && final(self).pending_spec() == old(self).pending_spec().push(line),
    {
        self.pending.push(line);
        if self.pending.len() >= self.chunk_size {
            let mut chunk: Vec<String> = Vec::new();
            core::mem::swap(&mut chunk, &mut self.pending);
            Some(chunk)
        } else {
            None
        }
    }

    /// Hands out the last, shorter chunk, if any line is pending.
    pub fn finish(self) -> (r: Option<Vec<String>>)
        ensures
            self.pending_spec().len() == 0 ==> r is None,
            self.pending_spec().len() > 0 ==> r is Some && r->0@ == self.pending_spec(),
    {
        if self.pending.len() == 0 {
            None
        } else {
            Some(self.pending)
        }
    }
}

} // verus!
