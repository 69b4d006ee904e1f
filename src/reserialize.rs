//! Decisions of the event-level strategy, which rebuilds each chunk from
//! parsed events instead of copying bytes: for each event, whether to open a
//! chunk, write the root's tags, and forward the event.
use vstd::prelude::*;

use crate::counters::{slot_of, Counters};
use crate::source::bytes_eq;

verus! {

/// The kind of a parsed event, as far as the decisions need it.
#[derive(Debug, Clone, Copy, PartialEq, Eq, Structural)]
pub enum EventKind {
    Start,
    End,
    Text,
    /// Any other event (comment, declaration, empty element, ...).
    Other,
}

/// What to do for one event, in this order: open chunk `open_chunk` and
/// write the root's opening tag into it, forward the event, then write the
/// root's closing tag.
#[derive(Debug, Clone, Copy, PartialEq, Eq, Structural)]
pub struct Reaction {
    pub open_chunk: Option<u32>,
    pub write_event: bool,
    pub close_root: bool,
}

/// The state of the event-level strategy.
pub struct Reserializer {
    pub counters: Counters,
    pub inside_item: bool,
    pub item_tag: Vec<u8>,
}

impl Reserializer {
    pub fn new(items_per_chunk: u32, item_tag: Vec<u8>) -> (r: Self)
        ensures
            r.counters.wf(),
            r.counters.items_per_chunk == items_per_chunk,
            r.counters.item_id == 0,
            !r.inside_item,
            r.item_tag@ == item_tag@,
    {
        Reserializer { counters: Counters::new(items_per_chunk), inside_item: false, item_tag }
    }

    /// Reacts to one event named `name`. An item's opening tag opens a chunk
    /// when it is the first of one and is always forwarded; its closing tag
    /// is forwarded and closes the root when it filled the chunk; other
    /// opening tags, closing tags and text are forwarded inside an item only.
    pub fn step(&mut self, kind: EventKind, name: &[u8]) -> (r: Reaction)
        requires
            old(self).counters.wf(),
            old(self).counters.item_id < u32::MAX,
        ensures
            final(self).counters.wf(),
            final(self).item_tag == old(self).item_tag,
            final(self).counters.items_per_chunk == old(self).counters.items_per_chunk,
            ({
                let is_item = name@ == old(self).item_tag@;
                let c = old(self).counters;
                if kind == EventKind::Start && is_item {
                    &&& r.open_chunk == if c.item_chunk_id == 0 {
                        Some(c.chunk_id)
                    } else {
                        None::<u32>
                    }
                    &&& r.write_event
                    &&& !r.close_root
                    &&& final(self).counters.item_id == c.item_id + 1
                    &&& final(self).inside_item
                } else if kind == EventKind::End && is_item {
                    &&& r.open_chunk is None
                    &&& r.write_event
                    &&& r.close_root == (slot_of(c.item_id as nat, c.items_per_chunk as nat) == 0)
                    &&& final(self).counters == c
                    &&& !final(self).inside_item
                } else {
                    &&& r.open_chunk is None
                    &&& r.write_event == (old(self).inside_item && kind != EventKind::Other)
                    &&& !r.close_root
                    &&& final(self).counters == c
                    &&& final(self).inside_item == old(self).inside_item
                }
            }),
    {
        let is_item = bytes_eq(name, self.item_tag.as_slice());
        match kind {
            EventKind::Start => {
                if is_item {
                    let open_chunk = if self.counters.item_chunk_id == 0 {
                        Some(self.counters.chunk_id)
                    } else {
                        None
                    };
                    self.counters.update();
                    self.inside_item = true;
                    Reaction { open_chunk, write_event: true, close_root: false }
                } else {
                    Reaction { open_chunk: None, write_event: self.inside_item, close_root: false }
                }
            },
            EventKind::End => {
                if is_item {
                    self.inside_item = false;
                    Reaction {
                        open_chunk: None,
                        write_event: true,
                        close_root: self.counters.item_chunk_id == 0,
                    }
                } else {
                    Reaction { open_chunk: None, write_event: self.inside_item, close_root: false }
                }
            },
            EventKind::Text => Reaction {
                open_chunk: None,
                write_event: self.inside_item,
                close_root: false,
            },
            EventKind::Other => Reaction { open_chunk: None, write_event: false, close_root: false },
        }
    }
}

} // verus!
