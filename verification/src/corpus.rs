//! The corpus format: one verse per line, written `Book Chapter:Verse Text`.
//!
//! The book may be several words; the chapter is the last word before the first colon
//! of the line, the verse the first word after it, and the text whatever follows, its
//! words joined by single spaces. A line that cannot be read this way is malformed, and
//! a corpus with a malformed line has no index.
use crate::model::{
    is_lowercased, lemma_with_verse_well_formed, well_formed, with_verse, IndexModel,
};
use crate::text::{
    find_char, first_index_of, join_spaced, join_words, lines, lowercase, number_of,
    parse_number, slice_of, split_words, string_of, views, words,
};
use vstd::prelude::*;

verus! {

/// One verse as a line of the corpus gives it.
pub ghost struct VerseLine {
    /// The book's name in lower case, its words joined by single spaces.
    pub book: Seq<char>,
    /// The chapter number, at least one.
    pub chapter: u32,
    /// The verse number, at least one.
    pub verse: u32,
    /// The verse text, its words joined by single spaces.
    pub text: Seq<char>,
}

/// The verse that a line gives, or `None` where the line is malformed: it has no
/// colon, or fewer than two words before the first colon (a book name and a chapter),
/// or no word after it, or its chapter or verse is not a number of at least one.
pub open spec fn verse_of_line(line: Seq<char>) -> Option<VerseLine> {
    let colon = first_index_of(line, ':') as int;
    let head = words(line.take(colon));
    let tail = words(line.skip(colon + 1));
    if colon >= line.len() || head.len() < 2 || tail.len() < 1 {
        None
    } else {
        match (number_of(head.last()), number_of(tail[0])) {
            (Some(chapter), Some(verse)) => if chapter >= 1 && verse >= 1 {
                Some(
                    VerseLine {
                        book: lowercase(join_spaced(head.drop_last())),
                        chapter,
                        verse,
                        text: join_spaced(tail.drop_first()),
                    },
                )
            } else {
                None
            },
            _ => None,
        }
    }
}

/// One verse read from a line of the corpus.
#[derive(Debug, Clone, PartialEq, Eq)]
pub struct Verse {
    /// The book's name in lower case.
    pub book: String,
    /// The chapter number.
    pub chapter: u32,
    /// The verse number.
    pub verse: u32,
    /// The verse text.
    pub text: String,
}

impl View for Verse {
    type V = VerseLine;

    open spec fn view(&self) -> VerseLine {
        VerseLine {
            book: self.book@,
            chapter: self.chapter,
            verse: self.verse,
            text: self.text@,
        }
    }
}

/// Reads one line of the corpus. Returns `None` exactly where the line is malformed.
pub fn parse_line(line: &Vec<char>) -> (parsed: Option<Verse>)
    ensures
        match parsed {
            Some(verse) => verse_of_line(line@) == Some(verse@),
            None => verse_of_line(line@) is None,
        },
{
    let colon: usize = find_char(line, 0, ':');
    proof {
        assert(line@.skip(0) == line@);
    }
    if colon >= line.len() {
        return None;
    }
    let head_part = slice_of(line, 0, colon);
    let tail_part = slice_of(line, colon + 1, line.len());
    let head = split_words(&head_part);
    let tail = split_words(&tail_part);
    if head.len() < 2 || tail.len() < 1 {
        return None;
    }
    let chapter: u32 = match parse_number(&head[head.len() - 1]) {
        Some(number) => number,
        None => {
            return None;
        },
    };
    let verse: u32 = match parse_number(&tail[0]) {
        Some(number) => number,
        None => {
            return None;
        },
    };
    if chapter < 1 || verse < 1 {
        return None;
    }
    let name = string_of(&join_words(&head, 0, head.len() - 1));
    let book = name.as_str().to_lowercase();
    let text = string_of(&join_words(&tail, 1, tail.len()));
    proof {
        assert(views(head@).subrange(0, head.len() - 1) == views(head@).drop_last());
        assert(views(tail@).subrange(1, tail.len() as int) == views(tail@).drop_first());
    }
    Some(Verse { book, chapter, verse, text })
}

/// The verses that the lines give, in order, or `None` where any line is malformed.
pub open spec fn verses_of_lines(lines: Seq<Seq<char>>) -> Option<Seq<VerseLine>>
    decreases lines.len(),
{
    if lines.len() == 0 {
        Some(Seq::empty())
    } else {
        match (verses_of_lines(lines.drop_last()), verse_of_line(lines.last())) {
            (Some(verses), Some(verse)) => Some(verses.push(verse)),
            _ => None,
        }
    }
}

/// The index that results from entering the verses one after the other: of two verses
/// with the same book, chapter and verse number, the later one stays.
pub open spec fn index_of_verses(verses: Seq<VerseLine>) -> IndexModel
    decreases verses.len(),
{
    if verses.len() == 0 {
        Map::empty()
    } else {
        let last = verses.last();
        with_verse(
            index_of_verses(verses.drop_last()),
            last.book,
            last.chapter,
            last.verse,
            last.text,
        )
    }
}

/// The index of a corpus, or `None` where one of its lines is malformed.
pub open spec fn index_of_text(text: Seq<char>) -> Option<IndexModel> {
    match verses_of_lines(lines(text)) {
        Some(verses) => Some(index_of_verses(verses)),
        None => None,
    }
}

/// A corpus with a malformed line has no verses.
pub proof fn lemma_malformed_line(lines: Seq<Seq<char>>, at: int)
    requires
        0 <= at < lines.len(),
        verse_of_line(lines[at]) is None,
    ensures
        verses_of_lines(lines) is None,
    decreases lines.len(),
{
    if at < lines.len() - 1 {
        lemma_malformed_line(lines.drop_last(), at);
    }
}

/// Every verse that a line gives has a lower-case book name and chapter and verse
/// numbers of at least one.
pub proof fn lemma_verse_of_line(line: Seq<char>)
    requires
        verse_of_line(line) is Some,
    ensures
        is_lowercased(verse_of_line(line)->0.book),
        verse_of_line(line)->0.chapter >= 1,
        verse_of_line(line)->0.verse >= 1,
{
}

/// The index of a corpus is well formed.
pub proof fn lemma_index_of_lines_well_formed(lines: Seq<Seq<char>>)
    requires
        verses_of_lines(lines) is Some,
    ensures
        well_formed(index_of_verses(verses_of_lines(lines)->0)),
    decreases lines.len(),
{
    if lines.len() > 0 {
        lemma_index_of_lines_well_formed(lines.drop_last());
        lemma_verse_of_line(lines.last());
        let verses = verses_of_lines(lines)->0;
        let last = verse_of_line(lines.last())->0;
        assert(verses.drop_last() == verses_of_lines(lines.drop_last())->0);
        assert(verses.last() == last);
        lemma_with_verse_well_formed(
            index_of_verses(verses.drop_last()),
            last.book,
            last.chapter,
            last.verse,
            last.text,
        );
    }
}

} // verus!
