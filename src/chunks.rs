//! The chunk set: every chunk created so far, each an appendable byte buffer,
//! with the counters that say which one the next item goes to.
use vstd::prelude::*;

use crate::counters::Counters;
use crate::source::append_bytes;

verus! {

/// The contents of a list of buffers.
pub open spec fn views(list: Seq<Vec<u8>>) -> Seq<Seq<u8>> {
    list.map_values(|c: Vec<u8>| c@)
}

/// Each of `chunks` with `bytes` appended.
pub open spec fn append_to_each(chunks: Seq<Seq<u8>>, bytes: Seq<u8>) -> Seq<Seq<u8>> {
    chunks.map_values(|c: Seq<u8>| c + bytes)
}

/// Every chunk created so far, in creation order, and the counters.
pub struct XmlChunks {
    pub list: Vec<Vec<u8>>,
    pub counters: Counters,
}

impl XmlChunks {
    pub fn new(items_per_chunk: u32) -> (r: Self)
        ensures
            r.list@.len() == 0,
            r.counters.wf(),
            r.counters.items_per_chunk == items_per_chunk,
            r.counters.item_id == 0,
    {
        let list = Vec::<Vec<u8>>::new();
        let counters = Counters::new(items_per_chunk);
        Self { list, counters }
    }

    /// Appends the same bytes to every chunk created so far.
    pub fn append_bytes_to_all(&mut self, bytes: &[u8])
        ensures
            views(final(self).list@) == append_to_each(views(old(self).list@), bytes@),
            final(self).counters == old(self).counters,
    {
        let mut i: usize = 0;
        while i < self.list.len()
            invariant
                i <= self.list@.len() == old(self).list@.len(),
                self.counters == old(self).counters,
                forall|j: int|
                    0 <= j < i ==> #[trigger] self.list@[j]@ == old(self).list@[j]@ + bytes@,
                forall|j: int|
                    i <= j < self.list@.len() ==> #[trigger] self.list@[j]@ == old(self).list@[j]@,
            decreases self.list.len() - i,
        {
            append_bytes(&mut self.list[i], bytes);
            i += 1;
        }
        assert(views(self.list@) =~= append_to_each(views(old(self).list@), bytes@));
    }

    /// Appends bytes to the chunk that the counters point at.
    pub fn append_bytes_to_current(&mut self, bytes: &[u8])
        requires
            (old(self).counters.chunk_id as int) < old(self).list@.len(),
        ensures
            views(final(self).list@) == views(old(self).list@).update(
                old(self).counters.chunk_id as int,
                old(self).list@[old(self).counters.chunk_id as int]@ + bytes@,
            ),
            final(self).counters == old(self).counters,
    {
        let id = self.counters.chunk_id as usize;
        append_bytes(&mut self.list[id], bytes);
        assert(views(self.list@) =~= views(old(self).list@).update(
            id as int,
            old(self).list@[id as int]@ + bytes@,
        ));
    }

    /// Creates the chunk that the counters point at, starting with `header`.
    pub fn new_chunk(&mut self, header: &[u8])
        requires
            old(self).counters.chunk_id as int == old(self).list@.len(),
        ensures
            views(final(self).list@) == views(old(self).list@).push(header@),
            final(self).counters == old(self).counters,
    {
        self.list.push(Vec::new());
        self.append_bytes_to_current(header);
        assert(views(self.list@) =~= views(old(self).list@).push(header@));
    }
}

} // verus!
