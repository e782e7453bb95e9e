//! The mathematical model of a verse index and of the queries against it.
//!
//! An index is a map from book name to a map from chapter number to a map from verse
//! number to verse text. Everything here is ghost code: the executable index is
//! proved to behave as these functions say.
use crate::error::BibleLibError;
use crate::text::{decimal_text, join_spaced, lowercase, superscripts, trim};
use vstd::prelude::*;

verus! {

/// What a chapter holds: the text of each of its verses, by verse number.
pub type ChapterModel = Map<u32, Seq<char>>;

/// What a book holds: its chapters, by chapter number.
pub type BookModel = Map<u32, ChapterModel>;

/// What an index holds: its books, by lower-case name.
pub type IndexModel = Map<Seq<char>, BookModel>;

/// Whether `name` is the lower-case form of some text.
pub open spec fn is_lowercased(name: Seq<char>) -> bool {
    exists|source: Seq<char>| name == #[trigger] lowercase(source)
}

/// A chapter of an index holds at least one verse, and no verse is numbered zero.
pub open spec fn chapter_well_formed(verses: ChapterModel) -> bool {
    &&& verses.dom().finite()
    &&& exists|verse: u32| verses.contains_key(verse)
    &&& forall|verse: u32| verses.contains_key(verse) ==> verse >= 1
}

/// A book of an index holds at least one chapter, no chapter is numbered zero, and each
/// chapter is well formed.
pub open spec fn book_well_formed(chapters: BookModel) -> bool {
    &&& chapters.dom().finite()
    &&& exists|chapter: u32| chapters.contains_key(chapter)
    &&& forall|chapter: u32| #[trigger]
        chapters.contains_key(chapter) ==> chapter >= 1 && chapter_well_formed(chapters[chapter])
}

/// The invariant of an index: finitely many books, each under a lower-case name and
/// well formed. An index may hold no book at all.
pub open spec fn well_formed(index: IndexModel) -> bool {
    &&& index.dom().finite()
    &&& forall|book: Seq<char>| #[trigger]
        index.contains_key(book) ==> is_lowercased(book) && book_well_formed(index[book])
}

/// A book after one verse has been entered. The chapter is created where it is
/// missing; a text already held for the same chapter and verse is replaced.
pub open spec fn book_with_verse(
    chapters: BookModel,
    chapter: u32,
    verse: u32,
    text: Seq<char>,
) -> BookModel {
    let verses = if chapters.contains_key(chapter) {
        chapters[chapter]
    } else {
        Map::empty()
    };
    chapters.insert(chapter, verses.insert(verse, text))
}

/// The index after one verse has been entered. Book and chapter are created where they
/// are missing; a text already held for the same book, chapter and verse is replaced.
pub open spec fn with_verse(
    index: IndexModel,
    book: Seq<char>,
    chapter: u32,
    verse: u32,
    text: Seq<char>,
) -> IndexModel {
    let chapters = if index.contains_key(book) {
        index[book]
    } else {
        Map::empty()
    };
    index.insert(book, book_with_verse(chapters, chapter, verse, text))
}

/// Whether the index holds a text for the verse of the book and chapter.
pub open spec fn holds_verse(index: IndexModel, book: Seq<char>, chapter: u32, verse: u32) -> bool {
    &&& index.contains_key(book)
    &&& index[book].contains_key(chapter)
    &&& index[book][chapter].contains_key(verse)
}

/// Entering a verse with a lower-case book name and chapter and verse numbers of at
/// least one keeps an index well formed.
pub proof fn lemma_with_verse_well_formed(
    index: IndexModel,
    book: Seq<char>,
    chapter: u32,
    verse: u32,
    text: Seq<char>,
)
    requires
        well_formed(index),
        is_lowercased(book),
        chapter >= 1,
        verse >= 1,
    ensures
        well_formed(with_verse(index, book, chapter, verse, text)),
{
    let chapters = if index.contains_key(book) {
        index[book]
    } else {
        Map::empty()
    };
    let verses = if chapters.contains_key(chapter) {
        chapters[chapter]
    } else {
        Map::empty()
    };
    let new_verses = verses.insert(verse, text);
    let new_chapters = chapters.insert(chapter, new_verses);
    assert(new_verses.contains_key(verse));
    assert(chapter_well_formed(new_verses));
    assert(new_chapters.contains_key(chapter));
    assert(new_chapters == book_with_verse(chapters, chapter, verse, text));
    assert(book_well_formed(new_chapters));
}

/// How one verse is shown: its text, and before it, where numbers are asked for, its
/// verse number in superscript digits.
pub open spec fn verse_piece(verse: u32, text: Seq<char>, numbered: bool) -> Seq<char> {
    if numbered {
        superscripts(decimal_text(verse as nat)) + text
    } else {
        text
    }
}

/// The outcome of looking up one verse. The book is looked for first, then the chapter,
/// then the verse, and the first that is missing names the error.
pub open spec fn single_verse(
    index: IndexModel,
    book: Seq<char>,
    chapter: u32,
    verse: u32,
    numbered: bool,
) -> Result<Seq<char>, BibleLibError> {
    if !index.contains_key(book) {
        Err(BibleLibError::BookNotFound)
    } else if !index[book].contains_key(chapter) {
        Err(BibleLibError::ChapterNotFound)
    } else if !index[book][chapter].contains_key(verse) {
        Err(BibleLibError::VerseNotFound)
    } else {
        Ok(verse_piece(verse, index[book][chapter][verse], numbered))
    }
}

/// The number of verses from `first` to `last`, both included; none where `last` is
/// below `first`.
pub open spec fn range_len(first: u32, last: u32) -> nat {
    if last >= first {
        (last - first + 1) as nat
    } else {
        0
    }
}

/// The outcomes of looking up the `count` verses that start at `first`, one after the
/// other: every verse as it is shown, or the error of the first verse that fails.
pub open spec fn range_pieces(
    index: IndexModel,
    book: Seq<char>,
    chapter: u32,
    first: u32,
    count: nat,
    numbered: bool,
) -> Result<Seq<Seq<char>>, BibleLibError>
    decreases count,
{
    if count == 0 {
        Ok(Seq::empty())
    } else {
        match range_pieces(index, book, chapter, first, (count - 1) as nat, numbered) {
            Err(error) => Err(error),
            Ok(pieces) => match single_verse(
                index,
                book,
                chapter,
                (first + count - 1) as u32,
                numbered,
            ) {
                Err(error) => Err(error),
                Ok(piece) => Ok(pieces.push(piece)),
            },
        }
    }
}

/// A range that fails keeps failing, with the same error, when it is made longer.
pub proof fn lemma_range_fails(
    index: IndexModel,
    book: Seq<char>,
    chapter: u32,
    first: u32,
    count: nat,
    longer: nat,
    numbered: bool,
)
    requires
        count <= longer,
        range_pieces(index, book, chapter, first, count, numbered) is Err,
    ensures
        range_pieces(index, book, chapter, first, longer, numbered) == range_pieces(
            index,
            book,
            chapter,
            first,
            count,
            numbered,
        ),
    decreases longer,
{
    if count < longer {
        lemma_range_fails(index, book, chapter, first, count, (longer - 1) as nat, numbered);
    }
}

/// The outcome of a lookup. Without an end it is that of the single verse. With an end
/// it is the verses from `verse` to the end, both included, joined by single spaces and
/// trimmed; if any of them is missing the whole lookup fails.
pub open spec fn lookup_text(
    index: IndexModel,
    book: Seq<char>,
    chapter: u32,
    verse: u32,
    thru_verse: Option<u32>,
    numbered: bool,
) -> Result<Seq<char>, BibleLibError> {
    match thru_verse {
        None => single_verse(index, book, chapter, verse, numbered),
        Some(last) => match range_pieces(
            index,
            book,
            chapter,
            verse,
            range_len(verse, last),
            numbered,
        ) {
            Err(error) => Err(error),
            Ok(pieces) => Ok(trim(join_spaced(pieces))),
        },
    }
}

/// The verses of a chapter that are numbered below `bound`, in ascending order of their
/// numbers, each as it is shown and followed by one space.
pub open spec fn chapter_text_below(verses: ChapterModel, bound: nat, numbered: bool) -> Seq<char>
    decreases bound,
{
    if bound == 0 {
        Seq::empty()
    } else {
        let verse = (bound - 1) as u32;
        let before = chapter_text_below(verses, (bound - 1) as nat, numbered);
        if verses.contains_key(verse) {
            before + verse_piece(verse, verses[verse], numbered) + seq![' ']
        } else {
            before
        }
    }
}

/// Where a chapter holds no verse numbered from `low` up to, not including, `high`,
/// its text below `high` is its text below `low`.
pub proof fn lemma_chapter_text_gap(verses: ChapterModel, low: nat, high: nat, numbered: bool)
    requires
        low <= high <= 0x1_0000_0000,
        forall|verse: u32| low <= verse < high ==> !verses.contains_key(verse),
    ensures
        chapter_text_below(verses, high, numbered) == chapter_text_below(verses, low, numbered),
    decreases high,
{
    if low < high {
        lemma_chapter_text_gap(verses, low, (high - 1) as nat, numbered);
    }
}

/// The outcome of asking for a whole chapter: all its verses in ascending order of
/// their numbers, each followed by one space.
pub open spec fn chapter_text(
    index: IndexModel,
    book: Seq<char>,
    chapter: u32,
    numbered: bool,
) -> Result<Seq<char>, BibleLibError> {
    if !index.contains_key(book) {
        Err(BibleLibError::BookNotFound)
    } else if !index[book].contains_key(chapter) {
        Err(BibleLibError::ChapterNotFound)
    } else {
        Ok(chapter_text_below(index[book][chapter], 0x1_0000_0000, numbered))
    }
}

/// The outcome of asking for the chapters of a book: their numbers.
pub open spec fn chapter_numbers(index: IndexModel, book: Seq<char>) -> Result<
    Set<u32>,
    BibleLibError,
> {
    if index.contains_key(book) {
        Ok(index[book].dom())
    } else {
        Err(BibleLibError::BookNotFound)
    }
}

/// The outcome of asking for the verses of a chapter: their numbers. A missing book is
/// reported as a missing chapter.
pub open spec fn verse_numbers(index: IndexModel, book: Seq<char>, chapter: u32) -> Result<
    Set<u32>,
    BibleLibError,
> {
    if index.contains_key(book) && index[book].contains_key(chapter) {
        Ok(index[book][chapter].dom())
    } else {
        Err(BibleLibError::ChapterNotFound)
    }
}

/// Whether `verse` is the highest verse number of a chapter.
pub open spec fn is_last_verse(verses: ChapterModel, verse: u32) -> bool {
    &&& verses.contains_key(verse)
    &&& forall|other: u32| verses.contains_key(other) ==> other <= verse
}

/// The outcome of asking for the highest verse number of a chapter. A missing book and
/// a chapter without verses are both reported as a missing chapter.
pub open spec fn max_verse(index: IndexModel, book: Seq<char>, chapter: u32) -> Result<
    u32,
    BibleLibError,
> {
    if index.contains_key(book) && index[book].contains_key(chapter) && exists|verse: u32|
        is_last_verse(index[book][chapter], verse) {
        Ok(choose|verse: u32| is_last_verse(index[book][chapter], verse))
    } else {
        Err(BibleLibError::ChapterNotFound)
    }
}

} // verus!
