//! The splitter: drives the source cursor token by token and places the
//! header, each item and the footer into the chunk set.
use vstd::prelude::*;

use crate::chunks::{views, XmlChunks};
use crate::counters::{chunk_of, slot_of};
use crate::error::SplitError;
use crate::layout::{
    chunk_body, chunk_count, chunk_first, chunk_last, chunks_of, header_bytes, item_bytes,
    item_count, item_start, items_concat, layout_wf, lemma_chunk_step, open_chunks, Layout,
};
use crate::nesting::{item_tag_of, NestingSpec};
use crate::source::{scan_from, scan_layout, ParserState, XmlSource};
use crate::tokenizer::{bom_len, event_reply, skip_reply, TokenView};

verus! {

/// The chunks that splitting `src` on items named `tag`, `n` per chunk,
/// produces; or the offset at which the tokenizer fails.
pub open spec fn split_result(src: Seq<u8>, tag: Seq<u8>, n: nat) -> Result<Seq<Seq<u8>>, int> {
    match scan_layout(src, tag) {
        Ok(lay) => Ok(chunks_of(src, lay, n)),
        Err(o) => Err(o),
    }
}

/// The item tag as the bytes that the tokenizer compares names with.
pub open spec fn tag_bytes(nesting: NestingSpec) -> Seq<u8> {
    vstd::utf8::encode_utf8(nesting.item_tag@)
}

/// Items placed so far leave item `i`'s bytes alone, for every `i` already placed.
proof fn lemma_concat_extend(src: Seq<u8>, lay: Layout, e: int, a: int, b: int)
    requires
        0 <= a,
        b <= lay.ends.len(),
    ensures
        items_concat(src, Layout { header_end: lay.header_end, ends: lay.ends.push(e) }, a, b)
            == items_concat(src, lay, a, b),
    decreases b - a,
{
    let lay2 = Layout { header_end: lay.header_end, ends: lay.ends.push(e) };
    if b > a {
        lemma_concat_extend(src, lay, e, a, b - 1);
        assert(lay2.ends[b - 1] == lay.ends[b - 1]);
        if b - 1 > 0 {
            assert(lay2.ends[b - 2] == lay.ends[b - 2]);
        }
        assert(item_bytes(src, lay2, b - 1) == item_bytes(src, lay, b - 1));
    }
}

/// Scanning past an item's opening tag and up to its closing tag.
proof fn lemma_scan_item(
    src: Seq<u8>,
    tag: Seq<u8>,
    calls: Seq<Option<Seq<u8>>>,
    pos: int,
    lay: Layout,
    end: int,
    e: int,
)
    requires
        0 <= pos < end < e <= src.len(),
        event_reply(src, calls) == Ok::<TokenView, int>(
            TokenView::Open { name: tag, end: end - bom_len(src) },
        ),
        skip_reply(src, calls.push(None), tag) == Ok::<int, int>(e - bom_len(src)),
    ensures
        scan_from(src, tag, calls, pos, lay) == scan_from(
            src,
            tag,
            calls.push(None).push(Some(tag)),
            e,
            Layout {
                header_end: if lay.ends.len() == 0 {
                    pos
                } else {
                    lay.header_end
                },
                ends: lay.ends.push(e),
            },
        ),
{
}

/// The byte-copying splitter: the source cursor, the chunk set, the header,
/// where the next item's bytes start and where the last non-item token ended.
pub struct XmlCopySplitter {
    pub xml_source: XmlSource,
    pub xml_chunks: XmlChunks,
    pub xml_header: Vec<u8>,
    pub start_node_source_pos: usize,
    pub last_node_source_pos: usize,
    /// The boundaries found so far.
    pub layout: Ghost<Layout>,
}

impl XmlCopySplitter {
    pub open spec fn src(&self) -> Seq<u8> {
        self.xml_source.src@
    }

    pub open spec fn tag(&self) -> Seq<u8> {
        self.xml_source.item_tag@
    }

    pub open spec fn n(&self) -> nat {
        self.xml_chunks.counters.items_per_chunk as nat
    }

    /// The chunk set holds exactly the header and the items found so far.
    pub open spec fn placed(&self) -> bool {
        let src = self.src();
        let lay = self.layout@;
        let k = item_count(lay);
        &&& self.xml_source.wf()
        &&& src.len() <= 2 * u32::MAX
        &&& layout_wf(src, lay)
        &&& 2 * k <= item_start(lay, k as int)
        &&& item_start(lay, k as int) <= self.xml_source.current_pos
        &&& self.start_node_source_pos as int == item_start(lay, k as int)
        &&& self.xml_header@ == header_bytes(src, lay)
        &&& self.xml_chunks.counters.wf()
        &&& self.xml_chunks.counters.item_id as int == k
        &&& views(self.xml_chunks.list@) == open_chunks(src, lay, self.n())
    }

    /// Between two tokens: what is placed, plus what the rest of the scan will find.
    pub open spec fn inv(&self) -> bool {
        let lay = self.layout@;
        let pos = self.xml_source.current_pos as int;
        &&& self.placed()
        &&& scan_from(self.src(), self.tag(), self.xml_source.calls(), pos, lay) == scan_layout(
            self.src(),
            self.tag(),
        )
        &&& self.xml_source.is_first_item <==> item_count(lay) == 0
        &&& item_count(lay) == 0 ==> self.last_node_source_pos as int == pos && lay.header_end == 0
    }

    pub fn new(src: Vec<u8>, max_items: u32, nesting: &NestingSpec) -> (r: Self)
        requires
            src@.len() <= 2 * u32::MAX,
        ensures
            r.inv(),
            r.src() == src@,
            r.tag() == tag_bytes(*nesting),
            r.n() == max_items,
            r.xml_header@.len() == 0,
            r.start_node_source_pos == 0,
            r.last_node_source_pos == 0,
            r.xml_source.current_pos == 0,
            r.xml_source.is_first_item,
            r.xml_source.calls() == Seq::<Option<Seq<u8>>>::empty(),
            r.layout@ == (Layout { header_end: 0, ends: Seq::empty() }),
            r.xml_chunks.list@.len() == 0,
            r.xml_chunks.counters.item_id == 0,
            r.xml_chunks.counters.chunk_id == 0,
            r.xml_chunks.counters.item_chunk_id == 0,
            r.xml_chunks.counters.items_per_chunk == max_items,
    {
        let tag = vstd::slice::slice_to_vec(nesting.item_tag.as_str().as_bytes());
        let r = Self {
            xml_source: XmlSource::new(src, tag),
            xml_chunks: XmlChunks::new(max_items),
            xml_header: Vec::new(),
            start_node_source_pos: 0,
            last_node_source_pos: 0,
            layout: Ghost(Layout { header_end: 0, ends: Seq::empty() }),
        };
        proof {
            if max_items > 0 {
                vstd::arithmetic::div_mod::lemma_basic_div((max_items - 1) as int, max_items as int);
            }
            assert(views(r.xml_chunks.list@) =~= open_chunks(r.src(), r.layout@, r.n()));
            assert(r.xml_header@ =~= header_bytes(r.src(), r.layout@));
        }
        r
    }

    /// Scans the whole source, filling the chunk set; the first tokenizer
    /// failure ends the run.
    pub fn run(&mut self) -> (r: Result<(), SplitError>)
        requires
            old(self).inv(),
        ensures
            final(self).src() == old(self).src(),
            final(self).tag() == old(self).tag(),
            final(self).n() == old(self).n(),
            match scan_layout(old(self).src(), old(self).tag()) {
                Ok(lay) => r is Ok && views(final(self).xml_chunks.list@) == chunks_of(
                    old(self).src(),
                    lay,
                    old(self).n(),
                ),
                Err(o) => r == Err::<(), SplitError>(SplitError::MalformedSource(o as usize)),
            },
    {
        loop
            invariant
                self.inv(),
                self.src() == old(self).src(),
                self.tag() == old(self).tag(),
                self.n() == old(self).n(),
            decreases self.xml_source.end_pos - self.xml_source.current_pos,
        {
            match self.advance() {
                Err(e) => {
                    return Err(e);
                },
                Ok(true) => {
                    return Ok(());
                },
                Ok(false) => {},
            }
        }
    }

    /// Reads one token and reacts to it; `Ok(true)` once the footer is placed.
    #[verifier::rlimit(50)]
    fn advance(&mut self) -> (r: Result<bool, SplitError>)
        requires
            old(self).inv(),
        ensures
            final(self).src() == old(self).src(),
            final(self).tag() == old(self).tag(),
            final(self).n() == old(self).n(),
            r is Err ==> scan_layout(old(self).src(), old(self).tag()) is Err && r == Err::<
                bool,
                SplitError,
            >(
                SplitError::MalformedSource(
                    (scan_layout(old(self).src(), old(self).tag())->Err_0) as usize,
                ),
            ),
            r == Ok::<bool, SplitError>(true) ==> scan_layout(old(self).src(), old(self).tag())
                == Ok::<Layout, int>(final(self).layout@) && views(final(self).xml_chunks.list@)
                == chunks_of(old(self).src(), final(self).layout@, old(self).n()),
            r == Ok::<bool, SplitError>(false) ==> final(self).inv()
                && final(self).xml_source.current_pos > old(self).xml_source.current_pos
                && final(self).xml_source.end_pos == old(self).xml_source.end_pos,
    {
        let ghost pos0 = self.xml_source.current_pos as int;
        let ghost lay0 = self.layout@;
        let ghost calls0 = self.xml_source.calls();
        let ghost src = self.src();
        let ghost tag = self.tag();
        proof {
            lemma_chunk_step(0, self.n());
        }
        match self.xml_source.next() {
            Err(e) => {
                Err(e)
            },
            Ok(ParserState::Node) => {
                assert(scan_from(src, tag, calls0, pos0, lay0) == scan_from(
                    src,
                    tag,
                    self.xml_source.calls(),
                    self.xml_source.current_pos as int,
                    lay0,
                ));
                self.handle_node();
                Ok(false)
            },
            Ok(ParserState::Item) => {
                let ghost end = self.xml_source.current_pos as int;
                let res = self.handle_item();
                if res.is_err() {
                    return Err(res.unwrap_err());
                }
                proof {
                    lemma_scan_item(
                        src,
                        tag,
                        calls0,
                        pos0,
                        lay0,
                        end,
                        self.xml_source.current_pos as int,
                    );
                }
                Ok(false)
            },
            Ok(ParserState::Header) => {
                assert(lay0.ends =~= Seq::<int>::empty());
                self.handle_header();
                assert(views(self.xml_chunks.list@) =~= open_chunks(src, self.layout@, self.n()));
                let ghost end = self.xml_source.current_pos as int;
                let res = self.handle_item();
                if res.is_err() {
                    return Err(res.unwrap_err());
                }
                proof {
                    lemma_scan_item(
                        src,
                        tag,
                        calls0,
                        pos0,
                        lay0,
                        end,
                        self.xml_source.current_pos as int,
                    );
                }
                Ok(false)
            },
            Ok(ParserState::Footer) => {
                self.handle_footer();
                Ok(true)
            },
        }
    }

    /// Places the item whose opening tag the cursor has just read: reads to
    /// its closing tag, opens a chunk if the item is the first of one, and
    /// appends the item's bytes to the current chunk.
    pub fn handle_item(&mut self) -> (r: Result<(), SplitError>)
        requires
            old(self).placed(),
            item_start(old(self).layout@, item_count(old(self).layout@) as int)
                < old(self).xml_source.current_pos,
        ensures
            final(self).xml_source.src == old(self).xml_source.src,
            final(self).xml_source.calls() == old(self).xml_source.calls().push(
                Some(old(self).tag()),
            ),
            final(self).xml_source.item_tag == old(self).xml_source.item_tag,
            final(self).xml_source.is_first_item == old(self).xml_source.is_first_item,
            final(self).last_node_source_pos == old(self).last_node_source_pos,
            final(self).n() == old(self).n(),
            match skip_reply(old(self).src(), old(self).xml_source.calls(), old(self).tag()) {
                Ok(e) => {
                    &&& r is Ok
                    &&& final(self).placed()
                    &&& final(self).xml_source.current_pos as int == e + bom_len(old(self).src())
                    &&& old(self).xml_source.current_pos < e + bom_len(old(self).src())
                    &&& final(self).layout@ == Layout {
                        header_end: old(self).layout@.header_end,
                        ends: old(self).layout@.ends.push(e + bom_len(old(self).src())),
                    }
                },
                Err(o) => r == Err::<(), SplitError>(
                    SplitError::MalformedSource((o + bom_len(old(self).src())) as usize),
                ),
            },
    {
        let ghost src = self.src();
        let ghost lay = self.layout@;
        let ghost k = item_count(lay);
        let ghost n = self.n();
        let consumed = self.xml_source.consume_item();
        if consumed.is_err() {
            return consumed;
        }
        let ghost e = self.xml_source.current_pos as int;
        let ghost lay2 = Layout { header_end: lay.header_end, ends: lay.ends.push(e) };
        let ghost j = chunk_of(k, n);
        proof {
            lemma_chunk_step(k, n);
            crate::counters::lemma_step(k, n);
            assert(views(self.xml_chunks.list@).len() == self.xml_chunks.list@.len());
        }
        let ghost before = views(self.xml_chunks.list@);
        if self.xml_chunks.counters.item_chunk_id == 0 {
            self.xml_chunks.new_chunk(self.xml_header.as_slice());
        }
        let ghost mid = views(self.xml_chunks.list@);
        proof {
            assert(mid.len() == self.xml_chunks.list@.len());
            assert(mid.len() == j + 1);
            assert(mid[j as int] == chunk_body(src, lay, n, j)) by {
                if slot_of(k, n) == 0 {
                    assert(items_concat(src, lay, k as int, k as int) =~= Seq::<u8>::empty());
                    assert(chunk_body(src, lay, n, j) =~= header_bytes(src, lay));
                }
            }
            assert forall|i: int| 0 <= i < j implies #[trigger] mid[i] == before[i] by {}
        }
        let next_node_source_pos: usize = self.xml_source.current_pos;
        let item = self.xml_source.extract(self.start_node_source_pos, next_node_source_pos);
        self.xml_chunks.append_bytes_to_current(item.as_slice());
        self.start_node_source_pos = next_node_source_pos;
        self.layout = Ghost(lay2);
        self.xml_chunks.counters.update();
        proof {
            let nv = views(self.xml_chunks.list@);
            assert(item@ == item_bytes(src, lay2, k as int));
            assert(header_bytes(src, lay2) == header_bytes(src, lay));
            assert forall|i: int| 0 <= i < j implies #[trigger] chunk_body(src, lay2, n, i as nat)
                == chunk_body(src, lay, n, i as nat) by {
                lemma_concat_extend(
                    src,
                    lay,
                    e,
                    chunk_first(i as nat, n) as int,
                    chunk_last(i as nat, n, k) as int,
                );
            }
            lemma_concat_extend(src, lay, e, chunk_first(j, n) as int, k as int);
            assert(chunk_body(src, lay2, n, j) == chunk_body(src, lay, n, j) + item@) by {
                assert(items_concat(src, lay2, chunk_first(j, n) as int, k + 1 as int) == items_concat(
                    src,
                    lay2,
                    chunk_first(j, n) as int,
                    k as int,
                ) + item_bytes(src, lay2, k as int));
                vstd::seq_lib::lemma_concat_associative(
                    header_bytes(src, lay),
                    items_concat(src, lay, chunk_first(j, n) as int, k as int),
                    item@,
                );
            }
            assert(nv.len() == chunk_count(k + 1, n));
            assert forall|i: int| 0 <= i < nv.len() implies nv[i] == #[trigger] open_chunks(
                src,
                lay2,
                n,
            )[i] by {
                if i < j {
                    assert(nv[i] == before[i]);
                }
            }
            assert(nv =~= open_chunks(src, lay2, n));
            assert(layout_wf(src, lay2));
        }
        Ok(())
    }

    /// Cuts the header: the source bytes before the first item's opening tag.
    pub fn handle_header(&mut self)
        requires
            old(self).xml_source.wf(),
            old(self).last_node_source_pos <= old(self).xml_source.src@.len(),
        ensures
            final(self).xml_header@ == old(self).src().subrange(
                0,
                old(self).last_node_source_pos as int,
            ),
            final(self).start_node_source_pos == old(self).last_node_source_pos,
            final(self).layout@ == (Layout {
                header_end: old(self).last_node_source_pos as int,
                ends: Seq::empty(),
            }),
            final(self).xml_source == old(self).xml_source,
            final(self).xml_chunks == old(self).xml_chunks,
            final(self).last_node_source_pos == old(self).last_node_source_pos,
    {
        self.xml_header = self.xml_source.extract(0, self.last_node_source_pos);
        self.start_node_source_pos = self.last_node_source_pos;
        self.layout = Ghost(Layout { header_end: self.last_node_source_pos as int, ends: Seq::empty() });
    }

    /// Cuts the footer, everything after the last item, and appends it to
    /// every chunk.
    pub fn handle_footer(&mut self)
        requires
            old(self).placed(),
        ensures
            views(final(self).xml_chunks.list@) == chunks_of(old(self).src(), old(self).layout@, old(self).n()),
            final(self).xml_source == old(self).xml_source,
            final(self).xml_chunks.counters == old(self).xml_chunks.counters,
            final(self).layout == old(self).layout,
    {
        let footer = self.xml_source.extract(self.start_node_source_pos, self.xml_source.end_pos);
        self.xml_chunks.append_bytes_to_all(footer.as_slice());
        assert(views(self.xml_chunks.list@) =~= chunks_of(self.src(), self.layout@, self.n()));
    }

    /// Remembers where the token just read ends.
    pub fn handle_node(&mut self)
        ensures
            final(self).last_node_source_pos == old(self).xml_source.current_pos,
            final(self).xml_source == old(self).xml_source,
            final(self).xml_chunks == old(self).xml_chunks,
            final(self).xml_header == old(self).xml_header,
            final(self).start_node_source_pos == old(self).start_node_source_pos,
            final(self).layout == old(self).layout,
    {
        self.last_node_source_pos = self.xml_source.current_pos;
    }

    /// The chunks, once the run is over.
    pub fn into_chunks(self) -> (r: Vec<Vec<u8>>)
        ensures
            r == self.xml_chunks.list,
    {
        self.xml_chunks.list
    }
}

/// Splits `src` into chunks of at most `max_items` items named by `nesting`
/// (all in one chunk when `max_items == 0`).
pub fn split(src: Vec<u8>, max_items: u32, nesting: &NestingSpec) -> (r: Result<
    Vec<Vec<u8>>,
    SplitError,
>)
    requires
        src@.len() <= 2 * u32::MAX,
    ensures
        match split_result(src@, tag_bytes(*nesting), max_items as nat) {
            Ok(cs) => r is Ok && views(r->Ok_0@) == cs,
            Err(o) => r == Err::<Vec<Vec<u8>>, SplitError>(SplitError::MalformedSource(o as usize)),
        },
{
    let mut splitter = XmlCopySplitter::new(src, max_items, nesting);
    match splitter.run() {
        Ok(()) => Ok(splitter.into_chunks()),
        Err(e) => Err(e),
    }
}

/// Parses the nesting path, then splits `src` on its item tag.
pub fn split_document(src: Vec<u8>, nesting: &String, count: u32) -> (r: Result<
    Vec<Vec<u8>>,
    SplitError,
>)
    requires
        src@.len() <= 2 * u32::MAX,
    ensures
        match item_tag_of(nesting@) {
            None => r == Err::<Vec<Vec<u8>>, SplitError>(SplitError::InvalidNestingSpec),
            Some(t) => match split_result(src@, vstd::utf8::encode_utf8(t), count as nat) {
                Ok(cs) => r is Ok && views(r->Ok_0@) == cs,
                Err(o) => r == Err::<Vec<Vec<u8>>, SplitError>(
                    SplitError::MalformedSource(o as usize),
                ),
            },
        },
{
    match NestingSpec::parse(nesting) {
        Ok(spec) => split(src, count, &spec),
        Err(e) => Err(e),
    }
}

} // verus!
