//! Lookup keys: a book, a chapter, and one verse or an inclusive range of verses.
use crate::text::{
    chars_of, decimal_of, decimal_text, numeric, join_spaced, join_words, lowercase, split_words,
    string_of, uppercase, uppercase_of, views, words,
};
use vstd::prelude::*;

verus! {

/// What a lookup asks for.
pub ghost struct Reference {
    /// The book's name in lower case.
    pub book: Seq<char>,
    /// The chapter number.
    pub chapter: u32,
    /// The verse number; the first verse where the lookup is a range.
    pub verse: u32,
    /// The last verse of the range, or `None` where the lookup is for a single verse.
    pub thru_verse: Option<u32>,
}

/// A lookup key for one verse or for a range of verses such as `John 3:16-18`.
/// The book is matched without regard to case: it is held in lower case.
#[derive(Debug, PartialEq, Eq)]
pub struct BibleLookup {
    pub book: String,
    pub chapter: u32,
    pub verse: u32,
    pub thru_verse: Option<u32>,
}

impl Clone for BibleLookup {
    /// A copy that asks for the same.
    fn clone(&self) -> (copy: Self)
        ensures
            copy@ == self@,
    {
        BibleLookup {
            book: self.book.clone(),
            chapter: self.chapter,
            verse: self.verse,
            thru_verse: self.thru_verse,
        }
    }
}

impl View for BibleLookup {
    type V = Reference;

    open spec fn view(&self) -> Reference {
        Reference {
            book: self.book@,
            chapter: self.chapter,
            verse: self.verse,
            thru_verse: self.thru_verse,
        }
    }
}

/// A word with its first character in upper case, unless that character is numeric.
pub open spec fn capitalized_word(word: Seq<char>) -> Seq<char> {
    if word.len() == 0 || numeric(word[0]) {
        word
    } else {
        uppercase(word[0]) + word.drop_first()
    }
}

/// A book name for display: each of its words capitalized, the words joined by single
/// spaces. Every word is treated alike, so `song of solomon` becomes `Song Of Solomon`.
pub open spec fn capitalized(name: Seq<char>) -> Seq<char> {
    join_spaced(words(name).map_values(|word: Seq<char>| capitalized_word(word)))
}

/// A lookup as it is written out: the capitalized book, the chapter, a colon, the
/// verse and, for a range, a hyphen and the last verse.
pub open spec fn reference_text(reference: Reference) -> Seq<char> {
    let single = capitalized(reference.book) + seq![' '] + decimal_text(reference.chapter as nat)
        + seq![':'] + decimal_text(reference.verse as nat);
    match reference.thru_verse {
        Some(last) => single + seq!['-'] + decimal_text(last as nat),
        None => single,
    }
}

/// `word` with its first character in upper case, unless that character is numeric.
fn capitalize_word(word: &Vec<char>) -> (shown: Vec<char>)
    ensures
        shown@ == capitalized_word(word@),
{
    if word.len() == 0 || word[0].is_numeric() {
        let shown = word.clone();
        assert(shown@ == word@);
        shown
    } else {
        let mut shown = uppercase_of(word[0]);
        let mut i: usize = 1;
        while i < word.len()
            invariant
                1 <= i <= word.len(),
                shown@ == uppercase(word@[0]) + word@.subrange(1, i as int),
            decreases word.len() - i,
        {
            shown.push(word[i]);
            i += 1;
        }
        assert(word@.subrange(1, i as int) == word@.drop_first());
        shown
    }
}

impl BibleLookup {
    /// A lookup for a single verse. The book's name is put in lower case.
    pub fn new(book: &str, chapter: u32, verse: u32) -> (lookup: Self)
        ensures
            lookup@ == (Reference { book: lowercase(book@), chapter, verse, thru_verse: None }),
    {
        BibleLookup { book: book.to_lowercase(), chapter, verse, thru_verse: None }
    }

    /// A lookup for the verses from `verse` to `thru_verse`, both included. The book's
    /// name is put in lower case.
    pub fn new_range(book: &str, chapter: u32, verse: u32, thru_verse: u32) -> (lookup: Self)
        ensures
            lookup@ == (Reference {
                book: lowercase(book@),
                chapter,
                verse,
                thru_verse: Some(thru_verse),
            }),
    {
        BibleLookup { book: book.to_lowercase(), chapter, verse, thru_verse: Some(thru_verse) }
    }

    /// The book name for display: the first letter of each word in upper case, but
    /// for a word that starts with a numeric character, which stays as it is.
    pub fn capitalize_book(name: &String) -> (shown: String)
        ensures
            shown@ == capitalized(name@),
    {
        let parts = split_words(&chars_of(name.as_str()));
        let mut raised: Vec<Vec<char>> = Vec::new();
        let mut i: usize = 0;
        let ghost target = words(name@).map_values(|word: Seq<char>| capitalized_word(word));
        while i < parts.len()
            invariant
                i <= parts.len(),
                views(parts@) == words(name@),
                target == words(name@).map_values(|word: Seq<char>| capitalized_word(word)),
                views(raised@) == target.take(i as int),
            decreases parts.len() - i,
        {
            let word = capitalize_word(&parts[i]);
            proof {
                assert(views(parts@)[i as int] == parts@[i as int]@);
                assert(target[i as int] == word@);
                assert(target.take(i + 1) == target.take(i as int).push(word@));
                assert(views(raised@.push(word)) == views(raised@).push(word@));
            }
            raised.push(word);
            i += 1;
        }
        proof {
            assert(views(raised@).subrange(0, raised.len() as int) == target);
        }
        string_of(&join_words(&raised, 0, raised.len()))
    }

    /// The lookup written out, such as `John 3:16` or `1 Samuel 3:1-10`.
    pub fn to_text(&self) -> (shown: String)
        ensures
            shown@ == reference_text(self@),
    {
        let mut shown = chars_of(Self::capitalize_book(&self.book).as_str());
        shown.push(' ');
        let mut chapter = decimal_of(self.chapter);
        shown.append(&mut chapter);
        shown.push(':');
        let mut verse = decimal_of(self.verse);
        shown.append(&mut verse);
        match self.thru_verse {
            Some(last) => {
                shown.push('-');
                let mut end = decimal_of(last);
                shown.append(&mut end);
            },
            None => {},
        }
        string_of(&shown)
    }
}

} // verus!
