//! Byte-exact splitting of a large XML feed into smaller documents.
//!
//! Every chunk is the source's header, a contiguous run of items, and the
//! source's footer, each copied byte for byte from the input. The scan of
//! the document goes through quick_xml's tokenizer (`source`); the rest
//! (where items start and end, which chunk each goes to, and what each chunk
//! holds) is stated and proved here.
pub mod chunks;
pub mod counters;
pub mod error;
pub mod laws;
pub mod layout;
pub mod nesting;
pub mod reserialize;
pub mod source;
pub mod splitter;
pub mod tokenizer;
