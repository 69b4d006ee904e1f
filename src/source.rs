//! The source cursor: a structural scan of the document, one token at a
//! time, and exact byte ranges cut from the same bytes.
use vstd::prelude::*;

use crate::error::SplitError;
use crate::layout::Layout;
use crate::tokenizer::{bom_len, event_reply, skip_reply, Token, TokenView, Tokenizer};

verus! {

/// The layout that the scan finds from source offset `pos` on, where the
/// reader has answered `calls` and `pos` is where its last token or skip
/// ended, given what was found before; or the offset at which the tokenizer
/// fails. The reader's positions leave out a leading byte order mark, so
/// `bom_len(src)` is added to each.
///
/// The first opening tag named `tag` ends the header; each such tag starts
/// an item that runs to its matching closing tag; end of input, or a token
/// that does not move past `pos` (trailing text), ends the scan.
pub open spec fn scan_from(
    src: Seq<u8>,
    tag: Seq<u8>,
    calls: Seq<Option<Seq<u8>>>,
    pos: int,
    lay: Layout,
) -> Result<Layout, int>
    decreases src.len() - pos,
{
    let b = bom_len(src);
    if pos < 0 || pos > src.len() {
        Err(pos)
    } else {
        let read = calls.push(None);
        match event_reply(src, calls) {
            Err(o) => Err(o + b),
            Ok(TokenView::Eof) => Ok(lay),
            Ok(TokenView::Open { name, end }) => {
                if end + b <= pos || end + b > src.len() {
                    Err(pos)
                } else if name == tag {
                    let header_end = if lay.ends.len() == 0 {
                        pos
                    } else {
                        lay.header_end
                    };
                    match skip_reply(src, read, tag) {
                        Err(o) => Err(o + b),
                        Ok(e) => {
                            if e <= end || e + b > src.len() {
                                Err(end + b)
                            } else {
                                scan_from(
                                    src,
                                    tag,
                                    read.push(Some(tag)),
                                    e + b,
                                    Layout { header_end, ends: lay.ends.push(e + b) },
                                )
                            }
                        },
                    }
                } else {
                    scan_from(src, tag, read, end + b, lay)
                }
            },
            Ok(TokenView::Other { end }) => {
                if end + b < pos || end + b > src.len() {
                    Err(pos)
                } else if end + b == pos {
                    Ok(lay)
                } else {
                    scan_from(src, tag, read, end + b, lay)
                }
            },
        }
    }
}

/// The layout of the whole source for items named `tag`.
pub open spec fn scan_layout(src: Seq<u8>, tag: Seq<u8>) -> Result<Layout, int> {
    scan_from(src, tag, Seq::empty(), 0, Layout { header_end: 0, ends: Seq::empty() })
}

/// The classification of one token relative to the item tag.
#[derive(Debug, Clone, Copy, PartialEq, Eq, Structural)]
pub enum ParserState {
    /// Anything that is not an item's opening tag.
    Node,
    /// The opening tag of an item after the first.
    Item,
    /// The opening tag of the first item: it ends the header.
    Header,
    /// End of input.
    Footer,
}

/// Length of the byte order mark at the start of `src`.
pub fn leading_bom_len(src: &[u8]) -> (r: usize)
    ensures
        r as int == bom_len(src@),
{
    if src.len() >= 3 && src[0] == 0xEFu8 && src[1] == 0xBBu8 && src[2] == 0xBFu8 {
        3
    } else {
        0
    }
}

/// Whether two byte strings are equal.
pub fn bytes_eq(a: &[u8], b: &[u8]) -> (r: bool)
    ensures
        r == (a@ == b@),
{
    if a.len() != b.len() {
        return false;
    }
    let mut i: usize = 0;
    while i < a.len()
        invariant
            a@.len() == b@.len(),
            i <= a@.len(),
            a@.subrange(0, i as int) == b@.subrange(0, i as int),
        decreases a.len() - i,
    {
        if a[i] != b[i] {
            return false;
        }
        assert(a@.subrange(0, i as int + 1) =~= a@.subrange(0, i as int).push(a@[i as int]));
        assert(b@.subrange(0, i as int + 1) =~= b@.subrange(0, i as int).push(b@[i as int]));
        i += 1;
    }
    assert(a@ =~= a@.subrange(0, i as int));
    assert(b@ =~= b@.subrange(0, i as int));
    true
}

/// Appends `bytes` to `dst`.
pub fn append_bytes(dst: &mut Vec<u8>, bytes: &[u8])
    ensures
        final(dst)@ == old(dst)@ + bytes@,
{
    let mut i: usize = 0;
    while i < bytes.len()
        invariant
            i <= bytes@.len(),
            dst@ == old(dst)@ + bytes@.subrange(0, i as int),
        decreases bytes.len() - i,
    {
        dst.push(bytes[i]);
        i += 1;
        assert(bytes@.subrange(0, i as int) =~= bytes@.subrange(0, i - 1 as int).push(
            bytes@[i - 1],
        ));
    }
    assert(bytes@.subrange(0, i as int) =~= bytes@);
}

/// The document being split: a forward structural scan and random-access
/// reads of exact byte ranges, over the same bytes.
pub struct XmlSource {
    pub src: Vec<u8>,
    pub item_tag: Vec<u8>,
    pub tokenizer: Tokenizer,
    /// Length of the byte order mark at the start of `src` (0 or 3).
    pub bom: usize,
    pub current_pos: usize,
    pub end_pos: usize,
    pub is_first_item: bool,
}

impl XmlSource {
    /// The cursor lies inside the source, whose length is `end_pos`, and is
    /// where the tokenizer, reading the same bytes, last reported.
    pub open spec fn wf(&self) -> bool {
        &&& self.end_pos == self.src@.len()
        &&& self.current_pos <= self.end_pos
        &&& self.tokenizer.src() == self.src@
        &&& self.bom as int == bom_len(self.src@)
        &&& self.tokenizer.pos() + self.bom <= self.src@.len()
        &&& (self.current_pos == self.tokenizer.pos() + self.bom || (self.current_pos == 0
            && self.tokenizer.pos() == 0))
    }

    /// The calls that the tokenizer has answered.
    pub open spec fn calls(&self) -> Seq<Option<Seq<u8>>> {
        self.tokenizer.calls()
    }

    pub fn new(src: Vec<u8>, item_tag: Vec<u8>) -> (r: Self)
        ensures
            r.wf(),
            r.src@ == src@,
            r.item_tag@ == item_tag@,
            r.calls() == Seq::<Option<Seq<u8>>>::empty(),
            r.current_pos == 0,
            r.is_first_item,
    {
        let end_pos = src.len();
        let tokenizer = Tokenizer::open(src.as_slice());
        let bom = leading_bom_len(src.as_slice());
        XmlSource { src, item_tag, tokenizer, bom, current_pos: 0, end_pos, is_first_item: true }
    }

    /// Reads the next token and classifies it; the cursor moves past it. A
    /// token that does not move the cursor is text at the very end of the
    /// input, which ends the scan as end of input does.
    pub fn next(&mut self) -> (r: Result<ParserState, SplitError>)
        requires
            old(self).wf(),
        ensures
            final(self).wf(),
            final(self).src@ == old(self).src@,
            final(self).item_tag@ == old(self).item_tag@,
            final(self).calls() == old(self).calls().push(None),
            ({
                let src = old(self).src@;
                let pos = old(self).current_pos as int;
                let b = bom_len(src);
                match event_reply(src, old(self).calls()) {
                    Err(o) => r == Err::<ParserState, SplitError>(
                        SplitError::MalformedSource((o + b) as usize),
                    )
                        && final(self).current_pos == old(self).current_pos
                        && final(self).is_first_item == old(self).is_first_item,
                    Ok(TokenView::Eof) => r == Ok::<ParserState, SplitError>(ParserState::Footer)
                        && final(self).current_pos == old(self).current_pos
                        && final(self).is_first_item == old(self).is_first_item,
                    Ok(TokenView::Open { name, end }) => pos < end + b <= src.len()
                        && final(self).current_pos == end + b && if name == old(self).item_tag@ {
                        &&& r == Ok::<ParserState, SplitError>(
                            if old(self).is_first_item {
                                ParserState::Header
                            } else {
                                ParserState::Item
                            },
                        )
                        &&& !final(self).is_first_item
                    } else {
                        r == Ok::<ParserState, SplitError>(ParserState::Node)
                            && final(self).is_first_item == old(self).is_first_item
                    },
                    Ok(TokenView::Other { end }) => pos <= end + b <= src.len()
                        && final(self).is_first_item == old(self).is_first_item && if end + b
                        == pos {
                        r == Ok::<ParserState, SplitError>(ParserState::Footer)
                            && final(self).current_pos == old(self).current_pos
                    } else {
                        r == Ok::<ParserState, SplitError>(ParserState::Node)
                            && final(self).current_pos == end + b
                    },
                }
            }),
    {
        match self.tokenizer.read_token() {
            Err(o) => Err(SplitError::MalformedSource(o + self.bom)),
            Ok(token) => {
                match &token {
                    Token::Open { end, .. } => {
                        self.current_pos = *end + self.bom;
                    },
                    Token::Other { end } => {
                        if *end + self.bom == self.current_pos {
                            return Ok(ParserState::Footer);
                        }
                        self.current_pos = *end + self.bom;
                    },
                    Token::Eof => {},
                }
                Ok(self.event_to_item_state(token))
            },
        }
    }

    /// Whether an opening tag's name is the item tag.
    pub fn is_item_start(&self, name: &Vec<u8>) -> (r: bool)
        ensures
            r == (name@ == self.item_tag@),
    {
        bytes_eq(name.as_slice(), self.item_tag.as_slice())
    }

    /// Classifies a token: the first item's opening tag is the header's end,
    /// later ones start items, end of input is the footer, and all else is a node.
    pub fn event_to_item_state(&mut self, token: Token) -> (r: ParserState)
        ensures
            final(self).src == old(self).src,
            final(self).item_tag == old(self).item_tag,
            final(self).tokenizer == old(self).tokenizer,
            final(self).bom == old(self).bom,
            final(self).current_pos == old(self).current_pos,
            final(self).end_pos == old(self).end_pos,
            match token@ {
                TokenView::Eof => r == ParserState::Footer && final(self).is_first_item
                    == old(self).is_first_item,
                TokenView::Open { name, .. } => if name == old(self).item_tag@ {
                    &&& r == if old(self).is_first_item {
                        ParserState::Header
                    } else {
                        ParserState::Item
                    }
                    &&& !final(self).is_first_item
                } else {
                    r == ParserState::Node && final(self).is_first_item == old(self).is_first_item
                },
                TokenView::Other { .. } => r == ParserState::Node && final(self).is_first_item
                    == old(self).is_first_item,
            },
    {
        match token {
            Token::Eof => ParserState::Footer,
            Token::Open { name, .. } => {
                if self.is_item_start(&name) {
                    if self.is_first_item {
                        self.is_first_item = false;
                        ParserState::Header
                    } else {
                        ParserState::Item
                    }
                } else {
                    ParserState::Node
                }
            },
            Token::Other { .. } => ParserState::Node,
        }
    }

    /// Moves the cursor past the closing tag of the item whose opening tag it
    /// has just read; the tokenizer checks the names of the closing tags on
    /// the way.
    pub fn consume_item(&mut self) -> (r: Result<(), SplitError>)
        requires
            old(self).wf(),
        ensures
            final(self).wf(),
            final(self).src == old(self).src,
            final(self).item_tag == old(self).item_tag,
            final(self).is_first_item == old(self).is_first_item,
            final(self).calls() == old(self).calls().push(Some(old(self).item_tag@)),
            match skip_reply(old(self).src@, old(self).calls(), old(self).item_tag@) {
                Ok(e) => r is Ok && final(self).current_pos == e + bom_len(old(self).src@)
                    && old(self).current_pos < e + bom_len(old(self).src@),
                Err(o) => r == Err::<(), SplitError>(
                    SplitError::MalformedSource((o + bom_len(old(self).src@)) as usize),
                ),
            },
    {
        match self.tokenizer.read_item_end(self.item_tag.as_slice()) {
            Ok(e) => {
                self.current_pos = e + self.bom;
                Ok(())
            },
            Err(o) => Err(SplitError::MalformedSource(o + self.bom)),
        }
    }

    /// The source bytes in `[start, end)`.
    pub fn extract(&self, start: usize, end: usize) -> (r: Vec<u8>)
        requires
            start <= end <= self.src@.len(),
        ensures
            r@ == self.src@.subrange(start as int, end as int),
    {
        let mut out: Vec<u8> = Vec::new();
        append_bytes(&mut out, vstd::slice::slice_subrange(self.src.as_slice(), start, end));
        out
    }
}

} // verus!
