//! Finding verse references in free text.
//!
//! A regular expression picks out the places that look like a reference, such as
//! `john 3:16` or `1 samuel 3:1-10`; each place is then read into a lookup.
use crate::lookup::{BibleLookup, Reference};
use crate::text::{
    chars_of, find_char, first_index_of, join_spaced, join_words, lowercase, number_of,
    parse_number, slice_of, split_words, string_of, texts, views, words,
};
use vstd::prelude::*;

verus! {

/// The regular expression for a verse reference in lower-case text: the name of a book,
/// white space, a chapter number, a colon, a verse number and, for a range, a hyphen
/// and a second verse number.
pub const REFERENCE_PATTERN: &'static str =
    r"\b(?:genesis|exodus|leviticus|numbers|deuteronomy|joshua|judges|ruth|1\s?samuel|2\s?samuel|1\s?kings|2\s?kings|1\s?chronicles|2\s?chronicles|ezra|nehemiah|esther|job|psalms|proverbs|ecclesiastes|song\sof\ssolomon|isaiah|jeremiah|lamentations|ezekiel|daniel|hosea|joel|amos|obadiah|jonah|micah|nahum|habakkuk|zephaniah|haggai|zechariah|malachi|matthew|mark|luke|john|acts|romans|1\s?corinthians|2\s?corinthians|galatians|ephesians|philippians|colossians|1\s?thessalonians|2\s?thessalonians|1\s?timothy|2\s?timothy|titus|philemon|hebrews|james|1\s?peter|2\s?peter|1\s?john|2\s?john|3\s?john|jude|revelation)\s+\d+:\d+(?:-\d+)?\b";

/// The successive matches of a regular expression in a text, from left to right and
/// without overlap, as the `regex` crate finds them; `None` where the crate does not
/// accept the pattern.
pub uninterp spec fn regex_matches(pattern: Seq<char>, text: Seq<char>) -> Option<Seq<Seq<char>>>;

/// `regex::Regex::new` compiles the pattern and `Regex::find_iter` yields the
/// successive matches in the text, each handed out as text by `Match::as_str`. Both
/// depend on the pattern and the text alone. `None` is returned exactly where the
/// pattern is refused.
#[verifier::external_body]
fn find_matches(pattern: &str, text: &str) -> (found: Option<Vec<String>>)
    ensures
        match found {
            Some(matches) => regex_matches(pattern@, text@) == Some(texts(matches@)),
            None => regex_matches(pattern@, text@) is None,
        },
{
    match regex::Regex::new(pattern) {
        Ok(regex) => Some(regex.find_iter(text).map(|found| found.as_str().to_string()).collect()),
        Err(_) => None,
    }
}

/// The lookup that a matched place is read as: the words before its first colon are
/// the book and, last of them, the chapter; what follows the colon is the verse, or
/// the first and the last verse of a range with a hyphen between them. `None` where
/// there is no colon, no word before it, or one of the numbers does not fit in 32 bits.
pub open spec fn reference_of(place: Seq<char>) -> Option<Reference> {
    let colon = first_index_of(place, ':') as int;
    let head = words(place.take(colon));
    let tail = place.skip(colon + 1);
    let hyphen = first_index_of(tail, '-') as int;
    if colon >= place.len() || head.len() < 1 {
        None
    } else if hyphen < tail.len() {
        match (
            number_of(head.last()),
            number_of(tail.take(hyphen)),
            number_of(tail.skip(hyphen + 1)),
        ) {
            (Some(chapter), Some(verse), Some(last)) => Some(
                Reference {
                    book: lowercase(join_spaced(head.drop_last())),
                    chapter,
                    verse,
                    thru_verse: Some(last),
                },
            ),
            _ => None,
        }
    } else {
        match (number_of(head.last()), number_of(tail)) {
            (Some(chapter), Some(verse)) => Some(
                Reference {
                    book: lowercase(join_spaced(head.drop_last())),
                    chapter,
                    verse,
                    thru_verse: None,
                },
            ),
            _ => None,
        }
    }
}

/// The lookups that the matched places are read as, in order; a place that cannot be
/// read is passed over.
pub open spec fn references_of(places: Seq<Seq<char>>) -> Seq<Reference>
    decreases places.len(),
{
    if places.len() == 0 {
        Seq::empty()
    } else {
        let before = references_of(places.drop_last());
        match reference_of(places.last()) {
            Some(reference) => before.push(reference),
            None => before,
        }
    }
}

/// The lookups found in a text: those of the places where [`REFERENCE_PATTERN`]
/// matches the text in lower case.
pub open spec fn references_in(text: Seq<char>) -> Seq<Reference> {
    match regex_matches(REFERENCE_PATTERN@, lowercase(text)) {
        Some(places) => references_of(places),
        None => Seq::empty(),
    }
}

/// What the lookups ask for.
pub open spec fn references(lookups: Seq<BibleLookup>) -> Seq<Reference> {
    lookups.map_values(|lookup: BibleLookup| lookup@)
}

impl BibleLookup {
    /// Reads one matched place, such as `john 3:16` or `1 samuel 3:1-10`, into a
    /// lookup. Returns `None` exactly where the place cannot be read.
    pub fn parse_reference(place: &str) -> (parsed: Option<Self>)
        ensures
            match parsed {
                Some(lookup) => reference_of(place@) == Some(lookup@),
                None => reference_of(place@) is None,
            },
    {
        let all = chars_of(place);
        let colon: usize = find_char(&all, 0, ':');
        proof {
            assert(all@.skip(0) == all@);
        }
        if colon >= all.len() {
            return None;
        }
        let head = split_words(&slice_of(&all, 0, colon));
        if head.len() < 1 {
            return None;
        }
        let tail = slice_of(&all, colon + 1, all.len());
        let hyphen: usize = find_char(&tail, 0, '-');
        proof {
            assert(tail@.skip(0) == tail@);
        }
        let chapter = parse_number(&head[head.len() - 1]);
        let (verse, thru_verse): (Option<u32>, Option<u32>) = if hyphen < tail.len() {
            let last = parse_number(&slice_of(&tail, hyphen + 1, tail.len()));
            if last.is_none() {
                return None;
            }
            (parse_number(&slice_of(&tail, 0, hyphen)), last)
        } else {
            (parse_number(&tail), None)
        };
        match (chapter, verse) {
            (Some(chapter), Some(verse)) => {
                let name = string_of(&join_words(&head, 0, head.len() - 1));
                proof {
                    assert(views(head@).subrange(0, head.len() - 1) == views(head@).drop_last());
                }
                Some(BibleLookup { book: name.as_str().to_lowercase(), chapter, verse, thru_verse })
            },
            _ => None,
        }
    }

    /// Reads matched places into lookups, in order; a place that cannot be read is
    /// passed over.
    pub fn lookups_of(places: &Vec<String>) -> (lookups: Vec<Self>)
        ensures
            references(lookups@) == references_of(texts(places@)),
    {
        let mut lookups: Vec<BibleLookup> = Vec::new();
        let mut i: usize = 0;
        proof {
            assert(texts(places@).take(0) == Seq::<Seq<char>>::empty());
            assert(references(lookups@) == Seq::<Reference>::empty());
        }
        while i < places.len()
            invariant
                i <= places.len(),
                references(lookups@) == references_of(texts(places@).take(i as int)),
            decreases places.len() - i,
        {
            proof {
                let next = texts(places@).take(i + 1);
                assert(next.drop_last() == texts(places@).take(i as int));
                assert(next.last() == places@[i as int]@);
            }
            match Self::parse_reference(places[i].as_str()) {
                Some(lookup) => {
                    proof {
                        assert(references(lookups@.push(lookup)) == references(lookups@).push(
                            lookup@,
                        ));
                    }
                    lookups.push(lookup);
                },
                None => {},
            }
            i += 1;
        }
        proof {
            assert(texts(places@).take(i as int) == texts(places@));
        }
        lookups
    }

    /// The verse references found in a text, in the order in which they stand. The
    /// text is searched in lower case, so the case of a book's name does not matter. A
    /// place that looks like a reference but whose numbers do not fit in 32 bits is
    /// passed over.
    pub fn detect_from_string(text: &str) -> (lookups: Vec<Self>)
        ensures
            references(lookups@) == references_in(text@),
    {
        let lower = text.to_lowercase();
        match find_matches(REFERENCE_PATTERN, lower.as_str()) {
            Some(places) => Self::lookups_of(&places),
            None => {
                let lookups: Vec<BibleLookup> = Vec::new();
                proof {
                    assert(references(lookups@) == Seq::<Reference>::empty());
                }
                lookups
            },
        }
    }
}

} // verus!
