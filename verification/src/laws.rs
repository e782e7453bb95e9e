//! What holds of every corpus and of every index, proved from the definitions.
use crate::corpus::{index_of_text, index_of_verses, verse_of_line, verses_of_lines, VerseLine};
use crate::error::BibleLibError;
use crate::model::{
    chapter_numbers, chapter_text, chapter_text_below, holds_verse, lemma_range_fails,
    lookup_text, max_verse, range_len, range_pieces, single_verse, verse_numbers, verse_piece,
    ChapterModel, IndexModel,
};
use crate::text::{join_spaced, lines, trim};
use vstd::prelude::*;

verus! {

/// Whether a line names the verse of the book and chapter.
pub open spec fn names_verse(line: VerseLine, book: Seq<char>, chapter: u32, verse: u32) -> bool {
    line.book == book && line.chapter == chapter && line.verse == verse
}

/// The verses of well-formed lines are as many as the lines.
pub proof fn lemma_verses_of_lines_len(lines: Seq<Seq<char>>)
    requires
        verses_of_lines(lines) is Some,
    ensures
        verses_of_lines(lines)->0.len() == lines.len(),
    decreases lines.len(),
{
    if lines.len() > 0 {
        lemma_verses_of_lines_len(lines.drop_last());
    }
}

/// Each of the verses of well-formed lines is the verse of the line at its place.
pub proof fn lemma_verses_of_lines(lines: Seq<Seq<char>>, at: int)
    requires
        verses_of_lines(lines) is Some,
        0 <= at < lines.len(),
    ensures
        verses_of_lines(lines)->0.len() == lines.len(),
        verse_of_line(lines[at]) == Some(verses_of_lines(lines)->0[at]),
    decreases lines.len(),
{
    lemma_verses_of_lines_len(lines);
    lemma_verses_of_lines_len(lines.drop_last());
    if at < lines.len() - 1 {
        lemma_verses_of_lines(lines.drop_last(), at);
    }
}

/// The index of a run of verses holds exactly the places that the verses name.
pub proof fn lemma_index_holds_the_verses(
    verses: Seq<VerseLine>,
    book: Seq<char>,
    chapter: u32,
    verse: u32,
)
    ensures
        holds_verse(index_of_verses(verses), book, chapter, verse) <==> exists|at: int|
            0 <= at < verses.len() && names_verse(#[trigger] verses[at], book, chapter, verse),
    decreases verses.len(),
{
    if verses.len() > 0 {
        let before = verses.drop_last();
        let last = verses.last();
        lemma_index_holds_the_verses(before, book, chapter, verse);
        if holds_verse(index_of_verses(verses), book, chapter, verse) {
            if names_verse(last, book, chapter, verse) {
                assert(names_verse(verses[verses.len() - 1], book, chapter, verse));
            } else {
                assert(holds_verse(index_of_verses(before), book, chapter, verse));
                let at = choose|at: int|
                    0 <= at < before.len() && names_verse(
                        #[trigger] before[at],
                        book,
                        chapter,
                        verse,
                    );
                assert(names_verse(verses[at], book, chapter, verse));
            }
        }
        if exists|at: int|
            0 <= at < verses.len() && names_verse(#[trigger] verses[at], book, chapter, verse) {
            let at = choose|at: int|
                0 <= at < verses.len() && names_verse(#[trigger] verses[at], book, chapter, verse);
            if at < verses.len() - 1 {
                assert(names_verse(before[at], book, chapter, verse));
            }
        }
    }
}

/// The index of a corpus holds a verse exactly where a line of the corpus names it.
pub proof fn law_index_holds_the_lines(text: Seq<char>, book: Seq<char>, chapter: u32, verse: u32)
    requires
        index_of_text(text) is Some,
    ensures
        holds_verse(index_of_text(text)->0, book, chapter, verse) <==> exists|at: int|
            0 <= at < lines(text).len() && names_verse(
                verse_of_line(#[trigger] lines(text)[at])->0,
                book,
                chapter,
                verse,
            ),
{
    let all = lines(text);
    let verses = verses_of_lines(all)->0;
    lemma_verses_of_lines_len(all);
    lemma_index_holds_the_verses(verses, book, chapter, verse);
    if holds_verse(index_of_text(text)->0, book, chapter, verse) {
        let at = choose|at: int|
            0 <= at < verses.len() && names_verse(#[trigger] verses[at], book, chapter, verse);
        lemma_verses_of_lines(all, at);
        assert(names_verse(verse_of_line(all[at])->0, book, chapter, verse));
    }
    if exists|at: int|
        0 <= at < all.len() && names_verse(
            verse_of_line(#[trigger] all[at])->0,
            book,
            chapter,
            verse,
        ) {
        let at = choose|at: int|
            0 <= at < all.len() && names_verse(
                verse_of_line(#[trigger] all[at])->0,
                book,
                chapter,
                verse,
            );
        lemma_verses_of_lines(all, at);
        assert(names_verse(verses[at], book, chapter, verse));
    }
}

/// In the index of a run of verses each place holds the text of the last verse that
/// names it.
pub proof fn lemma_last_entry_stays(verses: Seq<VerseLine>, at: int)
    requires
        0 <= at < verses.len(),
        forall|later: int|
            at < later < verses.len() ==> !names_verse(
                #[trigger] verses[later],
                verses[at].book,
                verses[at].chapter,
                verses[at].verse,
            ),
    ensures
        single_verse(
            index_of_verses(verses),
            verses[at].book,
            verses[at].chapter,
            verses[at].verse,
            false,
        ) == Ok::<Seq<char>, BibleLibError>(verses[at].text),
    decreases verses.len(),
{
    if at < verses.len() - 1 {
        lemma_last_entry_stays(verses.drop_last(), at);
        assert(!names_verse(
            verses[verses.len() - 1],
            verses[at].book,
            verses[at].chapter,
            verses[at].verse,
        ));
    }
}

/// For any corpus and any of its lines: looking up the verse that the line names gives
/// exactly the text of that line, unless a later line names the same verse.
pub proof fn law_verse_of_corpus(text: Seq<char>, at: int)
    requires
        index_of_text(text) is Some,
        0 <= at < lines(text).len(),
        forall|later: int|
            at < later < lines(text).len() ==> !names_verse(
                verse_of_line(#[trigger] lines(text)[later])->0,
                verse_of_line(lines(text)[at])->0.book,
                verse_of_line(lines(text)[at])->0.chapter,
                verse_of_line(lines(text)[at])->0.verse,
            ),
    ensures
        verse_of_line(lines(text)[at]) is Some,
        ({
            let line = verse_of_line(lines(text)[at])->0;
            lookup_text(index_of_text(text)->0, line.book, line.chapter, line.verse, None, false)
                == Ok::<Seq<char>, BibleLibError>(line.text)
        }),
{
    let all = lines(text);
    let verses = verses_of_lines(all)->0;
    lemma_verses_of_lines(all, at);
    assert forall|later: int| at < later < verses.len() implies !names_verse(
        #[trigger] verses[later],
        verses[at].book,
        verses[at].chapter,
        verses[at].verse,
    ) by {
        lemma_verses_of_lines(all, later);
    }
    lemma_last_entry_stays(verses, at);
}

/// For a book that the index does not hold, every query says so: a lookup of a verse
/// or of a range that holds at least one verse, a whole chapter and the list of
/// chapters fail with `BookNotFound`; the list of verses and the highest verse, which
/// do not tell a missing book from a missing chapter, fail with `ChapterNotFound`.
pub proof fn law_missing_book(
    index: IndexModel,
    book: Seq<char>,
    chapter: u32,
    verse: u32,
    thru_verse: Option<u32>,
    numbered: bool,
)
    requires
        !index.contains_key(book),
        thru_verse matches Some(last) ==> verse <= last,
    ensures
        lookup_text(index, book, chapter, verse, thru_verse, numbered) == Err::<
            Seq<char>,
            BibleLibError,
        >(BibleLibError::BookNotFound),
        chapter_text(index, book, chapter, numbered) == Err::<Seq<char>, BibleLibError>(
            BibleLibError::BookNotFound,
        ),
        chapter_numbers(index, book) == Err::<Set<u32>, BibleLibError>(BibleLibError::BookNotFound),
        verse_numbers(index, book, chapter) == Err::<Set<u32>, BibleLibError>(
            BibleLibError::ChapterNotFound,
        ),
        max_verse(index, book, chapter) == Err::<u32, BibleLibError>(
            BibleLibError::ChapterNotFound,
        ),
{
    if let Some(last) = thru_verse {
        assert(range_pieces(index, book, chapter, verse, 1, numbered) == Err::<
            Seq<Seq<char>>,
            BibleLibError,
        >(BibleLibError::BookNotFound)) by {
            assert(range_pieces(index, book, chapter, verse, 0, numbered) is Ok);
        }
        lemma_range_fails(index, book, chapter, verse, 1, range_len(verse, last), numbered);
    }
}

/// The verses of a range that can all be looked up one by one are the pieces of the
/// range.
pub proof fn lemma_range_of_singles(
    index: IndexModel,
    book: Seq<char>,
    chapter: u32,
    first: u32,
    count: nat,
    numbered: bool,
    singles: Seq<Seq<char>>,
)
    requires
        first + count <= 0x1_0000_0000,
        count <= singles.len(),
        forall|i: int|
            0 <= i < count ==> single_verse(index, book, chapter, (first + i) as u32, numbered)
                == Ok::<Seq<char>, BibleLibError>(#[trigger] singles[i]),
    ensures
        range_pieces(index, book, chapter, first, count, numbered) == Ok::<
            Seq<Seq<char>>,
            BibleLibError,
        >(singles.take(count as int)),
    decreases count,
{
    if count > 0 {
        lemma_range_of_singles(index, book, chapter, first, (count - 1) as nat, numbered, singles);
        assert(singles.take(count as int) == singles.take(count - 1).push(singles[count - 1]));
    } else {
        assert(singles.take(0) == Seq::<Seq<char>>::empty());
    }
}

/// A lookup of a range gives what the lookups of its verses give one by one, joined by
/// single spaces and trimmed.
pub proof fn law_range_of_singles(
    index: IndexModel,
    book: Seq<char>,
    chapter: u32,
    first: u32,
    last: u32,
    numbered: bool,
    singles: Seq<Seq<char>>,
)
    requires
        first <= last,
        singles.len() == last - first + 1,
        forall|i: int|
            0 <= i < singles.len() ==> lookup_text(
                index,
                book,
                chapter,
                (first + i) as u32,
                None,
                numbered,
            ) == Ok::<Seq<char>, BibleLibError>(#[trigger] singles[i]),
    ensures
        lookup_text(index, book, chapter, first, Some(last), numbered) == Ok::<
            Seq<char>,
            BibleLibError,
        >(trim(join_spaced(singles))),
{
    lemma_range_of_singles(index, book, chapter, first, singles.len(), numbered, singles);
    assert(singles.take(singles.len() as int) == singles);
}

/// The verses of a chapter that are numbered `low` or higher.
pub open spec fn verses_from(verses: ChapterModel, low: nat) -> ChapterModel {
    verses.restrict(Set::new(|verse: u32| verse >= low))
}

/// The verses from `low` on have no text below `bound` where `bound` is not above
/// `low`.
pub proof fn lemma_no_text_below(verses: ChapterModel, low: nat, bound: nat, numbered: bool)
    requires
        bound <= low,
    ensures
        chapter_text_below(verses_from(verses, low), bound, numbered) == Seq::<char>::empty(),
    decreases bound,
{
    if bound > 0 {
        lemma_no_text_below(verses, low, (bound - 1) as nat, numbered);
    }
}

/// Cut at any verse number, the text of a chapter is the text of the verses below the
/// cut followed by the text of the verses from the cut on.
pub proof fn lemma_chapter_text_split(
    verses: ChapterModel,
    cut: nat,
    bound: nat,
    numbered: bool,
)
    requires
        cut <= bound <= 0x1_0000_0000,
    ensures
        chapter_text_below(verses, bound, numbered) == chapter_text_below(verses, cut, numbered)
            + chapter_text_below(verses_from(verses, cut), bound, numbered),
    decreases bound,
{
    let upper = verses_from(verses, cut);
    let low = chapter_text_below(verses, cut, numbered);
    if cut < bound {
        lemma_chapter_text_split(verses, cut, (bound - 1) as nat, numbered);
        let verse = (bound - 1) as u32;
        let high = chapter_text_below(upper, (bound - 1) as nat, numbered);
        if verses.contains_key(verse) {
            let piece = verse_piece(verse, verses[verse], numbered);
            assert(upper.contains_key(verse) && upper[verse] == verses[verse]);
            assert((low + high) + piece + seq![' '] == low + (high + piece + seq![' ']));
        } else {
            assert(!upper.contains_key(verse));
        }
    } else {
        lemma_no_text_below(verses, cut, cut, numbered);
        assert(low + Seq::<char>::empty() == low);
    }
}

/// The text of a chapter is in ascending order of the verse numbers, however the
/// verses came into the chapter: for each of its verses it is the text of the verses
/// with lower numbers, then that verse and a space, then the text of the verses with
/// higher numbers.
pub proof fn law_chapter_in_order(verses: ChapterModel, verse: u32, numbered: bool)
    requires
        verses.contains_key(verse),
    ensures
        chapter_text_below(verses, 0x1_0000_0000, numbered) == chapter_text_below(
            verses,
            verse as nat,
            numbered,
        ) + verse_piece(verse, verses[verse], numbered) + seq![' '] + chapter_text_below(
            verses_from(verses, verse as nat + 1),
            0x1_0000_0000,
            numbered,
        ),
{
    lemma_chapter_text_split(verses, verse as nat + 1, 0x1_0000_0000, numbered);
}

/// Building the index of the same text twice gives the same books, chapters and verses
/// with the same text at every verse.
pub proof fn law_same_text_same_index(text: Seq<char>, first: IndexModel, second: IndexModel)
    requires
        index_of_text(text) == Some(first),
        index_of_text(text) == Some(second),
    ensures
        first == second,
        first.dom() == second.dom(),
        forall|book: Seq<char>, chapter: u32, verse: u32|
            holds_verse(first, book, chapter, verse) == holds_verse(second, book, chapter, verse),
        forall|book: Seq<char>, chapter: u32, verse: u32, numbered: bool|
            single_verse(first, book, chapter, verse, numbered) == single_verse(
                second,
                book,
                chapter,
                verse,
                numbered,
            ),
{
}

} // verus!
