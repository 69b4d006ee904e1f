//! quick_xml's reader over the whole source, one instance for the whole scan,
//! together with what it has been asked so far.
use vstd::prelude::*;

use std::io::Cursor;

use quick_xml::events::Event;
use quick_xml::name::QName;
use quick_xml::reader::Reader;

verus! {

#[verifier::external_type_specification]
#[verifier::external_body]
#[verifier::reject_recursive_types(R)]
pub struct ExReader<R>(Reader<R>);

#[verifier::external_type_specification]
#[verifier::external_body]
#[verifier::reject_recursive_types(T)]
pub struct ExCursor<T>(Cursor<T>);

/// One structural token, as the tokenizer reports it.
pub enum Token {
    /// An opening tag with its name; the token ends at `end`.
    Open { name: Vec<u8>, end: usize },
    /// Any other token (text, closing tag, comment, declaration, ...).
    Other { end: usize },
    /// End of input.
    Eof,
}

/// What a token says, as plain values.
pub enum TokenView {
    Open { name: Seq<u8>, end: int },
    Other { end: int },
    Eof,
}

impl View for Token {
    type V = TokenView;

    open spec fn view(&self) -> TokenView {
        match self {
            Token::Open { name, end } => TokenView::Open { name: name@, end: *end as int },
            Token::Other { end } => TokenView::Other { end: *end as int },
            Token::Eof => TokenView::Eof,
        }
    }
}

/// A tokenizer result as plain values.
pub open spec fn token_result_view(r: Result<Token, usize>) -> Result<TokenView, int> {
    match r {
        Ok(t) => Ok(t@),
        Err(o) => Err(o as int),
    }
}

/// An offset result as plain values.
pub open spec fn offset_result_view(r: Result<usize, usize>) -> Result<int, int> {
    match r {
        Ok(e) => Ok(e as int),
        Err(o) => Err(o as int),
    }
}

/// Length of a UTF-8 byte order mark at the start of `src`: the reader drops
/// it before the first token and does not count it in its positions.
pub open spec fn bom_len(src: Seq<u8>) -> int {
    if src.len() >= 3 && src[0] == 0xEFu8 && src[1] == 0xBBu8 && src[2] == 0xBFu8 {
        3
    } else {
        0
    }
}

/// The token that a reader made over `src` returns after it has answered
/// `calls` (each `None` a read of one token, each `Some(tag)` a skip to the
/// closing tag of `tag`), or the offset at which it fails.
pub uninterp spec fn event_reply(src: Seq<u8>, calls: Seq<Option<Seq<u8>>>) -> Result<
    TokenView,
    int,
>;

/// Where a reader made over `src`, after answering `calls`, finds the
/// closing tag of the open element `tag`: the offset just after it, or the
/// offset at which it fails.
pub uninterp spec fn skip_reply(src: Seq<u8>, calls: Seq<Option<Seq<u8>>>, tag: Seq<u8>) -> Result<
    int,
    int,
>;

/// A reader over a copy of the source. The ghost fields say which source it
/// reads, which calls it has answered, and the position that it reported
/// with its last token or skip (0 at first), as the reader counts positions
/// (without a leading byte order mark, see `bom_len`); only `open` and the
/// two reading methods below set them.
pub struct Tokenizer {
    reader: Reader<Cursor<Vec<u8>>>,
    src: Ghost<Seq<u8>>,
    calls: Ghost<Seq<Option<Seq<u8>>>>,
    pos: Ghost<int>,
}

/// Relies on quick_xml's `Reader::from_reader`, over a cursor on a copy of `src`.
#[verifier::external_body]
fn new_reader(src: &[u8]) -> Reader<Cursor<Vec<u8>>> {
    Reader::from_reader(Cursor::new(src.to_vec()))
}

impl Tokenizer {
    pub closed spec fn src(&self) -> Seq<u8> {
        self.src@
    }

    pub closed spec fn calls(&self) -> Seq<Option<Seq<u8>>> {
        self.calls@
    }

    pub closed spec fn pos(&self) -> int {
        self.pos@
    }

    pub fn open(src: &[u8]) -> (t: Tokenizer)
        ensures
            t.src() == src@,
            t.calls() == Seq::<Option<Seq<u8>>>::empty(),
            t.pos() == 0,
    {
        Tokenizer {
            reader: new_reader(src),
            src: Ghost(src@),
            calls: Ghost(Seq::empty()),
            pos: Ghost(0),
        }
    }

    /// Relies on quick_xml's `Reader::read_event_into`: the next event, its
    /// kind, the name of an opening tag, and `Reader::buffer_position` for
    /// where it ends. Positions, which leave out a leading byte order mark,
    /// never go back and never pass the end of the source; an opening tag moves past the last reported position. Text
    /// that runs to the end of the input is reported one byte short, so
    /// another token may end where the last one did.
    #[verifier::external_body]
    pub fn read_token(&mut self) -> (r: Result<Token, usize>)
        ensures
            final(self).src() == old(self).src(),
            final(self).calls() == old(self).calls().push(None),
            token_result_view(r) == event_reply(old(self).src(), old(self).calls()),
            r matches Ok(Token::Open { end, .. }) ==> old(self).pos() < end && end + bom_len(
                old(self).src(),
            ) <= old(self).src().len() && final(self).pos() == end,
            r matches Ok(Token::Other { end }) ==> old(self).pos() <= end && end + bom_len(
                old(self).src(),
            ) <= old(self).src().len() && final(self).pos() == end,
            r matches Ok(Token::Eof) ==> final(self).pos() == old(self).pos(),
            r matches Err(o) ==> o + bom_len(old(self).src()) <= old(self).src().len()
                && final(self).pos() == old(self).pos(),
    {
        let mut buf = Vec::new();
        let event = self.reader.read_event_into(&mut buf);
        let end = self.reader.buffer_position();
        match event {
            Ok(Event::Start(e)) => Ok(Token::Open { name: e.name().as_ref().to_vec(), end }),
            Ok(Event::Eof) => Ok(Token::Eof),
            Ok(_) => Ok(Token::Other { end }),
            Err(_) => Err(end),
        }
    }

    /// Relies on quick_xml's `Reader::read_to_end_into`: called after an
    /// opening tag named `tag`, it skips to the matching closing tag (nested
    /// elements of the same name included, closing-tag names checked), and
    /// `Reader::buffer_position` gives the offset just after it (leaving out
    /// a leading byte order mark); end of input before it is an error.
    #[verifier::external_body]
    pub fn read_item_end(&mut self, tag: &[u8]) -> (r: Result<usize, usize>)
        ensures
            final(self).src() == old(self).src(),
            final(self).calls() == old(self).calls().push(Some(tag@)),
            offset_result_view(r) == skip_reply(old(self).src(), old(self).calls(), tag@),
            r matches Ok(e) ==> old(self).pos() < e && e + bom_len(old(self).src())
                <= old(self).src().len() && final(self).pos() == e,
            r matches Err(o) ==> o + bom_len(old(self).src()) <= old(self).src().len()
                && final(self).pos() == old(self).pos(),
    {
        let mut buf = Vec::new();
        match self.reader.read_to_end_into(QName(tag), &mut buf) {
            Ok(_) => Ok(self.reader.buffer_position()),
            Err(_) => Err(self.reader.buffer_position()),
        }
    }
}

} // verus!
