//! A corpus loaded for lookup.
use crate::corpus::{
    index_of_text, index_of_verses, lemma_index_of_lines_well_formed, lemma_malformed_line,
    parse_line, verses_of_lines,
};
use crate::error::BibleLibError;
use crate::index::{
    book_model, chapter_model, distinct_titles, enter, index_model, lemma_index_model_empty,
    lemma_index_model_entry, lemma_index_model_key, lemma_titles, Book, VerseIndex,
};
use crate::keys::{ascending, ascending_keys, keys_of};
use crate::lookup::BibleLookup;
use crate::model::{
    chapter_numbers, chapter_text, chapter_text_below, holds_verse, is_last_verse,
    lemma_chapter_text_gap,
    lemma_range_fails, lookup_text, max_verse, range_len, range_pieces, single_verse,
    verse_numbers, verse_piece, well_formed, IndexModel,
};
use crate::text::{
    chars_of, decimal_of, is_digit, join_words, lines, raise_digits, split_lines, string_of,
    superscripts, texts, trimmed, views,
};
use crate::translation::Translation;
use rand::seq::IteratorRandom;
use std::collections::HashMap;
use vstd::pervasive::unreached;
use vstd::prelude::*;

verus! {

broadcast use vstd::std_specs::hash::group_hash_axioms;

/// A corpus loaded for lookup: the translation it was taken from and its verse index.
#[derive(Debug)]
pub struct Bible {
    translation: Translation,
    verses: VerseIndex,
}

impl View for Bible {
    type V = IndexModel;

    closed spec fn view(&self) -> IndexModel {
        self.verses@
    }
}

impl Clone for Bible {
    /// A copy with the same translation and the same verses.
    fn clone(&self) -> (copy: Self)
        ensures
            copy@ == self@,
            copy.translation() == self.translation(),
    {
        Bible { translation: self.translation.clone(), verses: self.verses.clone() }
    }
}

/// The outcome of a query for text, with the text as a sequence of characters.
pub open spec fn text_outcome(outcome: Result<String, BibleLibError>) -> Result<
    Seq<char>,
    BibleLibError,
> {
    match outcome {
        Ok(text) => Ok(text@),
        Err(error) => Err(error),
    }
}

impl Bible {
    /// The translation the corpus was taken from.
    pub closed spec fn translation(&self) -> Translation {
        self.translation
    }

    /// Builds the verse index of a corpus. Fails with `InvalidVerseFormat` exactly
    /// where a line of the corpus is malformed; nothing is built from the lines
    /// before it.
    pub fn parse_text(text: &String) -> (parsed: Result<VerseIndex, BibleLibError>)
        ensures
            match parsed {
                Ok(index) => index_of_text(text@) == Some(index@) && well_formed(index@),
                Err(error) => error is InvalidVerseFormat && index_of_text(text@) is None,
            },
    {
        let all = split_lines(&chars_of(text.as_str()));
        let mut books: Vec<Book> = Vec::new();
        let mut i: usize = 0;
        proof {
            assert(views(all@).take(0) == Seq::<Seq<char>>::empty());
            lemma_index_model_empty();
            assert(books@ == Seq::<Book>::empty());
        }
        while i < all.len()
            invariant
                i <= all.len(),
                views(all@) == lines(text@),
                distinct_titles(books@),
                verses_of_lines(views(all@).take(i as int)) is Some,
                index_model(books@) == index_of_verses(
                    verses_of_lines(views(all@).take(i as int))->0,
                ),
            decreases all.len() - i,
        {
            let ghost before = views(all@).take(i as int);
            let ghost after = views(all@).take(i + 1);
            proof {
                assert(after.drop_last() == before);
                assert(after.last() == all@[i as int]@);
            }
            match parse_line(&all[i]) {
                Some(verse) => {
                    proof {
                        let verses = verses_of_lines(after)->0;
                        assert(verses.drop_last() == verses_of_lines(before)->0);
                        assert(verses.last() == verse@);
                    }
                    enter(&mut books, verse);
                },
                None => {
                    proof {
                        lemma_malformed_line(lines(text@), i as int);
                    }
                    return Err(BibleLibError::InvalidVerseFormat);
                },
            }
            i += 1;
        }
        proof {
            assert(views(all@).take(i as int) == lines(text@));
            lemma_index_of_lines_well_formed(lines(text@));
        }
        Ok(VerseIndex::from_books(books))
    }

    /// Loads the corpus `text` of the given translation. Fails with
    /// `InvalidVerseFormat` exactly where a line of the corpus is malformed.
    pub fn new(translation: Translation, text: &String) -> (made: Result<Self, BibleLibError>)
        ensures
            match made {
                Ok(bible) => index_of_text(text@) == Some(bible@) && well_formed(bible@)
                    && bible.translation() == translation,
                Err(error) => error is InvalidVerseFormat && index_of_text(text@) is None,
            },
    {
        match Self::parse_text(text) {
            Ok(verses) => Ok(Bible { translation, verses }),
            Err(error) => Err(error),
        }
    }

    /// The translation the corpus was taken from.
    pub fn get_translation(&self) -> (translation: &Translation)
        ensures
            *translation == self.translation(),
    {
        &self.translation
    }

    /// The verse index of the corpus.
    pub fn verses(&self) -> (verses: &VerseIndex)
        ensures
            verses@ == self@,
    {
        &self.verses
    }

    /// The text `s` with each decimal digit in superscript form. Every other character
    /// stays as it is.
    pub fn replace_superscript(s: String) -> (raised: String)
        ensures
            raised@ == superscripts(s@),
            raised@.len() == s@.len(),
            forall|i: int| 0 <= i < s@.len() && !is_digit(s@[i]) ==> raised@[i] == s@[i],
    {
        string_of(&raise_digits(&chars_of(s.as_str())))
    }

    /// One verse as it is shown, or the error of the first of book, chapter and verse
    /// that is missing.
    fn shown_verse(&self, book: &str, chapter: u32, verse: u32, numbered: bool) -> (shown: Result<
        Vec<char>,
        BibleLibError,
    >)
        ensures
            match shown {
                Ok(piece) => single_verse(self@, book@, chapter, verse, numbered) == Ok::<
                    Seq<char>,
                    BibleLibError,
                >(piece@),
                Err(error) => single_verse(self@, book@, chapter, verse, numbered) == Err::<
                    Seq<char>,
                    BibleLibError,
                >(error),
            },
    {
        let chapters = match self.verses.book(book) {
            Some(found) => found.chapters(),
            None => {
                return Err(BibleLibError::BookNotFound);
            },
        };
        let verses = match chapters.get(&chapter) {
            Some(found) => found,
            None => {
                return Err(BibleLibError::ChapterNotFound);
            },
        };
        let text = match verses.get(&verse) {
            Some(found) => found,
            None => {
                return Err(BibleLibError::VerseNotFound);
            },
        };
        let mut piece: Vec<char> = if numbered {
            raise_digits(&decimal_of(verse))
        } else {
            Vec::new()
        };
        let mut words = chars_of(text.as_str());
        piece.append(&mut words);
        proof {
            assert(Seq::<char>::empty() + text@ == text@);
        }
        Ok(piece)
    }

    /// The text of a verse, or of a range of verses joined by single spaces and
    /// trimmed. With `use_superscripts` every verse is led by its number in
    /// superscript digits. A missing book, chapter or verse fails the whole lookup,
    /// the book being looked for first and the verse last; a range whose end is below
    /// its start holds no verse and gives the empty text.
    pub fn get_verse(&self, lookup: BibleLookup, use_superscripts: bool) -> (found: Result<
        String,
        BibleLibError,
    >)
        ensures
            text_outcome(found) == lookup_text(
                self@,
                lookup.book@,
                lookup.chapter,
                lookup.verse,
                lookup.thru_verse,
                use_superscripts,
            ),
    {
        let book = lookup.book.as_str();
        let last: u32 = match lookup.thru_verse {
            Some(last) => last,
            None => {
                let verse: u32 = lookup.verse;
                return match self.shown_verse(book, lookup.chapter, verse, use_superscripts) {
                    Ok(piece) => Ok(string_of(&piece)),
                    Err(error) => Err(error),
                };
            },
        };
        let count: u64 = if last >= lookup.verse {
            (last - lookup.verse) as u64 + 1
        } else {
            0
        };
        let mut pieces: Vec<Vec<char>> = Vec::new();
        let mut done: u64 = 0;
        proof {
            assert(views(pieces@) == Seq::<Seq<char>>::empty());
        }
        while done < count
            invariant
                done <= count,
                book@ == lookup.book@,
                lookup.thru_verse == Some(last),
                count == range_len(lookup.verse, last),
                range_pieces(
                    self@,
                    book@,
                    lookup.chapter,
                    lookup.verse,
                    done as nat,
                    use_superscripts,
                ) == Ok::<Seq<Seq<char>>, BibleLibError>(views(pieces@)),
            decreases count - done,
        {
            let verse: u32 = (lookup.verse as u64 + done) as u32;
            match self.shown_verse(book, lookup.chapter, verse, use_superscripts) {
                Ok(piece) => {
                    proof {
                        assert(views(pieces@.push(piece)) == views(pieces@).push(piece@));
                    }
                    pieces.push(piece);
                },
                Err(error) => {
                    proof {
                        assert(range_pieces(
                            self@,
                            book@,
                            lookup.chapter,
                            lookup.verse,
                            done as nat + 1,
                            use_superscripts,
                        ) == Err::<Seq<Seq<char>>, BibleLibError>(error)) by {
                            assert((done as nat + 1 - 1) as nat == done as nat);
                            assert((lookup.verse + (done as nat + 1) - 1) as u32 == verse);
                        }
                        lemma_range_fails(
                            self@,
                            book@,
                            lookup.chapter,
                            lookup.verse,
                            done as nat + 1,
                            count as nat,
                            use_superscripts,
                        );
                    }
                    return Err(error);
                },
            }
            done += 1;
        }
        proof {
            assert(views(pieces@).subrange(0, pieces.len() as int) == views(pieces@));
        }
        Ok(string_of(&trimmed(&join_words(&pieces, 0, pieces.len()))))
    }

    /// The text of a whole chapter: its verses in ascending order of their numbers,
    /// each followed by one space, and each led by its number in superscript digits
    /// where `use_superscripts` is set. Fails with `BookNotFound` where the book is
    /// missing and with `ChapterNotFound` where the book lacks the chapter.
    pub fn get_chapter(&self, book: &str, chapter: u32, use_superscripts: bool) -> (found: Result<
        String,
        BibleLibError,
    >)
        ensures
            text_outcome(found) == chapter_text(self@, book@, chapter, use_superscripts),
    {
        let chapters = match self.verses.book(book) {
            Some(found) => found.chapters(),
            None => {
                return Err(BibleLibError::BookNotFound);
            },
        };
        let verses = match chapters.get(&chapter) {
            Some(found) => found,
            None => {
                return Err(BibleLibError::ChapterNotFound);
            },
        };
        let ghost model = chapter_model(*verses);
        let keys = ascending_keys(verses);
        let mut text: Vec<char> = Vec::new();
        let mut i: usize = 0;
        while i < keys.len()
            invariant
                i <= keys.len(),
                ascending(keys@),
                keys@.to_set() == verses@.dom(),
                model == chapter_model(*verses),
                text@ == chapter_text_below(
                    model,
                    if i == 0 {
                        0
                    } else {
                        (keys@[i - 1] + 1) as nat
                    },
                    use_superscripts,
                ),
            decreases keys.len() - i,
        {
            let key: u32 = keys[i];
            let ghost low: nat = if i == 0 {
                0
            } else {
                (keys@[i - 1] + 1) as nat
            };
            proof {
                assert forall|verse: u32| low <= verse < key implies !model.contains_key(verse) by {
                    if model.contains_key(verse) {
                        assert(keys@.to_set().contains(verse));
                        let j = choose|j: int| 0 <= j < keys@.len() && keys@[j] == verse;
                        if j < i {
                            assert(i > 0 && keys@[j] <= keys@[i - 1]);
                        } else {
                            assert(keys@[i as int] <= keys@[j]);
                        }
                    }
                }
                lemma_chapter_text_gap(model, low, key as nat, use_superscripts);
                assert(keys@.to_set().contains(key));
            }
            match verses.get(&key) {
                Some(held) => {
                    if use_superscripts {
                        let mut number = raise_digits(&decimal_of(key));
                        text.append(&mut number);
                    }
                    let mut words = chars_of(held.as_str());
                    text.append(&mut words);
                    text.push(' ');
                    proof {
                        let before = chapter_text_below(model, key as nat, use_superscripts);
                        let piece = verse_piece(key, model[key], use_superscripts);
                        assert(before + Seq::<char>::empty() + held@ == before + held@);
                        assert(text@ == before + piece + seq![' ']);
                    }
                },
                None => unreached(),
            }
            i += 1;
        }
        proof {
            let low: nat = if i == 0 {
                0
            } else {
                (keys@[i - 1] + 1) as nat
            };
            assert forall|verse: u32| low <= verse < 0x1_0000_0000 implies !model.contains_key(
                verse,
            ) by {
                if model.contains_key(verse) {
                    assert(keys@.to_set().contains(verse));
                    let j = choose|j: int| 0 <= j < keys@.len() && keys@[j] == verse;
                    assert(i > 0 && keys@[j] <= keys@[i - 1]);
                }
            }
            lemma_chapter_text_gap(model, low, 0x1_0000_0000, use_superscripts);
        }
        Ok(string_of(&text))
    }

    /// The names of all books, each once, in no particular order.
    pub fn get_books(&self) -> (names: Vec<String>)
        ensures
            texts(names@).to_set() == self@.dom(),
            texts(names@).no_duplicates(),
    {
        let books = self.verses.books();
        let mut names: Vec<String> = Vec::new();
        let mut i: usize = 0;
        while i < books.len()
            invariant
                i <= books.len(),
                names.len() == i,
                forall|j: int| 0 <= j < i ==> (#[trigger] names@[j])@ == books@[j].title(),
            decreases books.len() - i,
        {
            names.push(books[i].name().clone());
            i += 1;
        }
        proof {
            lemma_titles(books@, texts(names@));
        }
        names
    }

    /// The numbers of all chapters of a book, each once, in no particular order.
    /// Fails with `BookNotFound` where the book is missing.
    pub fn get_chapters(&self, book: &str) -> (found: Result<Vec<u32>, BibleLibError>)
        ensures
            match found {
                Ok(numbers) => chapter_numbers(self@, book@) == Ok::<Set<u32>, BibleLibError>(
                    numbers@.to_set(),
                ) && numbers@.no_duplicates(),
                Err(error) => chapter_numbers(self@, book@) == Err::<Set<u32>, BibleLibError>(
                    error,
                ),
            },
    {
        match self.verses.book(book) {
            Some(found) => {
                let chapters = found.chapters();
                proof {
                    assert(book_model(*chapters).dom() == chapters@.dom());
                }
                Ok(keys_of(chapters))
            },
            None => Err(BibleLibError::BookNotFound),
        }
    }

    /// The verses of a chapter of a book, if the book is there and has the chapter.
    fn chapter(&self, book: &str, chapter: u32) -> (found: Option<&HashMap<u32, String>>)
        ensures
            match found {
                Some(verses) => self@.contains_key(book@) && self@[book@].contains_key(chapter)
                    && self@[book@][chapter] == chapter_model(*verses),
                None => !(self@.contains_key(book@) && self@[book@].contains_key(chapter)),
            },
    {
        match self.verses.book(book) {
            Some(found) => found.chapters().get(&chapter),
            None => None,
        }
    }

    /// The numbers of all verses of a chapter, each once, in no particular order.
    /// Fails with `ChapterNotFound` where the chapter is missing, and also where the
    /// book is.
    pub fn get_verses(&self, book: &str, chapter: u32) -> (found: Result<Vec<u32>, BibleLibError>)
        ensures
            match found {
                Ok(numbers) => verse_numbers(self@, book@, chapter) == Ok::<
                    Set<u32>,
                    BibleLibError,
                >(numbers@.to_set()) && numbers@.no_duplicates(),
                Err(error) => verse_numbers(self@, book@, chapter) == Err::<
                    Set<u32>,
                    BibleLibError,
                >(error),
            },
    {
        match self.chapter(book, chapter) {
            Some(verses) => {
                proof {
                    assert(chapter_model(*verses).dom() == verses@.dom());
                }
                Ok(keys_of(verses))
            },
            None => Err(BibleLibError::ChapterNotFound),
        }
    }

    /// The highest verse number of a chapter. Fails with `ChapterNotFound` where the
    /// chapter is missing, where the book is, and where the chapter holds no verse.
    pub fn get_max_verse(&self, book: &str, chapter: u32) -> (found: Result<u32, BibleLibError>)
        ensures
            found == max_verse(self@, book@, chapter),
            found matches Ok(verse) ==> is_last_verse(self@[book@][chapter], verse),
    {
        let verses = match self.chapter(book, chapter) {
            Some(verses) => verses,
            None => {
                return Err(BibleLibError::ChapterNotFound);
            },
        };
        let ghost model = chapter_model(*verses);
        let keys = keys_of(verses);
        proof {
            assert(model.dom() == verses@.dom());
        }
        if keys.len() == 0 {
            proof {
                assert forall|verse: u32| !is_last_verse(model, verse) by {
                    if model.contains_key(verse) {
                        assert(keys@.to_set().contains(verse));
                    }
                }
            }
            return Err(BibleLibError::ChapterNotFound);
        }
        let mut highest: u32 = keys[0];
        let mut i: usize = 1;
        while i < keys.len()
            invariant
                1 <= i <= keys.len(),
                exists|j: int| 0 <= j < i && keys@[j] == highest,
                forall|j: int| 0 <= j < i ==> keys@[j] <= highest,
            decreases keys.len() - i,
        {
            if keys[i] > highest {
                highest = keys[i];
            }
            i += 1;
        }
        proof {
            assert(keys@.to_set().contains(highest));
            assert forall|other: u32| model.contains_key(other) implies other <= highest by {
                assert(keys@.to_set().contains(other));
            }
            assert(is_last_verse(model, highest));
            let chosen = choose|verse: u32| is_last_verse(model, verse);
            assert(is_last_verse(model, chosen));
            assert(chosen == highest);
        }
        Ok(highest)
    }

    /// A verse picked at random: first a book among the books, then a chapter among
    /// its chapters, then a verse among the chapter's verses, each time with equal
    /// chances. The index must hold at least one book.
    pub fn random_verse(&self) -> (lookup: BibleLookup)
        requires
            exists|book: Seq<char>| self@.contains_key(book),
        ensures
            lookup.thru_verse is None,
            holds_verse(self@, lookup.book@, lookup.chapter, lookup.verse),
    {
        let books = self.verses.books();
        proof {
            let name = choose|book: Seq<char>| self@.contains_key(book);
            let at = lemma_index_model_key(books@, name);
        }
        let book = match choose_from(books) {
            Some(book) => book,
            None => unreached(),
        };
        proof {
            let at = choose|i: int| 0 <= i < books@.len() && books@[i] == *book;
            lemma_index_model_entry(books@, at);
        }
        let chapters = book.chapters();
        proof {
            assert(book_model(*chapters).dom() == chapters@.dom());
        }
        let chapter: u32 = match pick_key(chapters) {
            Some(chapter) => chapter,
            None => unreached(),
        };
        let verses = match chapters.get(&chapter) {
            Some(verses) => verses,
            None => unreached(),
        };
        proof {
            assert(chapter_model(*verses).dom() == verses@.dom());
            assert(book.content().contains_key(chapter));
        }
        let verse: u32 = match pick_key(verses) {
            Some(verse) => verse,
            None => unreached(),
        };
        BibleLookup { book: book.name().clone(), chapter, verse, thru_verse: None }
    }
}

/// One of the keys of `map`, picked at random with equal chances, or `None` where
/// `map` has no key.
fn pick_key<V>(map: &HashMap<u32, V>) -> (picked: Option<u32>)
    ensures
        match picked {
            Some(key) => map@.contains_key(key),
            None => forall|key: u32| !map@.contains_key(key),
        },
{
    let keys = keys_of(map);
    match choose_from(&keys) {
        Some(key) => {
            proof {
                assert(keys@.to_set().contains(*key));
            }
            Some(*key)
        },
        None => {
            proof {
                assert forall|key: u32| !map@.contains_key(key) by {
                    if map@.contains_key(key) {
                        assert(keys@.to_set().contains(key));
                    }
                }
            }
            None
        },
    }
}

/// `rand::seq::IteratorRandom::choose`, called on the items of a vector with the
/// generator of `rand::rng()`, returns `None` only where there is no item and else one
/// of the items. Which one is left open: two calls on the same items may differ.
/// `rand::rng()` panics where the operating system gives it no seed.
#[verifier::external_body]
fn choose_from<T>(items: &Vec<T>) -> (chosen: Option<&T>)
    ensures
        items.len() == 0 ==> chosen is None,
        items.len() > 0 ==> chosen is Some && items@.contains(*chosen->0),
{
    items.iter().choose(&mut rand::rng())
}

} // verus!
