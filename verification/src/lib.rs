//! A lookup library for a scripture corpus held as plain text, one verse per line.
//!
//! The corpus is parsed into a three-level index (book, chapter, verse) and queried by
//! exact key: single verses, inclusive verse ranges, whole chapters, and the lists of
//! books, chapters and verses. Verse references can also be found in free text.
//!
//! [`Bible`] is a loaded corpus, [`BibleLookup`] a query key and [`Translation`] names
//! the corpus. The module [`model`] says what an index is and what each query returns;
//! [`corpus`] says how a text is read into an index; [`laws`] holds what follows.
pub mod bible;
pub mod corpus;
pub mod detect;
pub mod error;
pub mod index;
pub mod keys;
pub mod laws;
pub mod lookup;
pub mod model;
pub mod text;
pub mod translation;

pub use bible::Bible;
pub use index::VerseIndex;
pub use lookup::BibleLookup;
pub use translation::Translation;
