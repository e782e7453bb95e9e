use bible_lib::Bible;
use bible_lib::error::BibleLibError;
use bible_lib::BibleLookup;
use bible_lib::Translation;

fn custom() -> Translation {
    Translation::Custom { name: "Sample".to_string(), path: "sample.txt".to_string() }
}

fn load(text: &str) -> Bible {
    Bible::new(custom(), &text.to_string()).unwrap()
}

const SAMPLE: &str = "John 3:16 For God so loved...\n\
John 3:17 For God did not send...\n\
1 Samuel 3:1 And the child Samuel ministered.\n\
Song of Solomon 1:1 The song of songs.\n";

#[test]
fn scenario_single_verse() {
    let bible = load(SAMPLE);
    let text = bible.get_verse(BibleLookup::new("john", 3, 16), false).unwrap();
    assert_eq!(text, "For God so loved...");
}

#[test]
fn scenario_range_is_joined_by_one_space() {
    let bible = load(SAMPLE);
    let text = bible.get_verse(BibleLookup::new_range("john", 3, 16, 17), false).unwrap();
    assert_eq!(text, "For God so loved... For God did not send...");
}

#[test]
fn scenario_chapters_contain_three() {
    let bible = load(SAMPLE);
    let chapters = bible.get_chapters("john").unwrap();
    assert!(chapters.contains(&3));
    assert_eq!(chapters, vec![3]);
}

#[test]
fn scenario_max_verse() {
    let bible = load(SAMPLE);
    assert_eq!(bible.get_max_verse("john", 3).unwrap(), 17);
}

#[test]
fn scenario_missing_chapter() {
    let bible = load(SAMPLE);
    let found = bible.get_verse(BibleLookup::new("john", 4, 1), false);
    assert!(matches!(found, Err(BibleLibError::ChapterNotFound)));
}

#[test]
fn lookup_is_not_case_sensitive() {
    let bible = load(SAMPLE);
    let text = bible.get_verse(BibleLookup::new("JOHN", 3, 17), false).unwrap();
    assert_eq!(text, "For God did not send...");
    let text = bible.get_verse(BibleLookup::new("Song Of Solomon", 1, 1), false).unwrap();
    assert_eq!(text, "The song of songs.");
}

#[test]
fn every_line_is_found_again() {
    let bible = load(SAMPLE);
    let expected = [
        ("john", 3, 16, "For God so loved..."),
        ("john", 3, 17, "For God did not send..."),
        ("1 samuel", 3, 1, "And the child Samuel ministered."),
        ("song of solomon", 1, 1, "The song of songs."),
    ];
    for (book, chapter, verse, text) in expected {
        let found = bible.get_verse(BibleLookup::new(book, chapter, verse), false).unwrap();
        assert_eq!(found, text);
    }
}

#[test]
fn missing_verse_is_reported() {
    let bible = load(SAMPLE);
    let found = bible.get_verse(BibleLookup::new("john", 3, 18), false);
    assert!(matches!(found, Err(BibleLibError::VerseNotFound)));
}

#[test]
fn missing_book_is_reported_by_every_query() {
    let bible = load(SAMPLE);
    assert!(matches!(
        bible.get_verse(BibleLookup::new("mark", 1, 1), false),
        Err(BibleLibError::BookNotFound)
    ));
    assert!(matches!(
        bible.get_verse(BibleLookup::new_range("mark", 1, 1, 3), true),
        Err(BibleLibError::BookNotFound)
    ));
    assert!(matches!(bible.get_chapter("mark", 1, false), Err(BibleLibError::BookNotFound)));
    assert!(matches!(bible.get_chapters("mark"), Err(BibleLibError::BookNotFound)));
    assert!(matches!(bible.get_verses("mark", 1), Err(BibleLibError::ChapterNotFound)));
    assert!(matches!(bible.get_max_verse("mark", 1), Err(BibleLibError::ChapterNotFound)));
}

#[test]
fn queries_by_name_do_not_change_case() {
    let bible = load(SAMPLE);
    assert!(matches!(bible.get_chapter("John", 3, false), Err(BibleLibError::BookNotFound)));
    assert!(matches!(bible.get_chapters("John"), Err(BibleLibError::BookNotFound)));
}

#[test]
fn missing_chapter_is_reported_by_every_query() {
    let bible = load(SAMPLE);
    assert!(matches!(bible.get_chapter("john", 9, false), Err(BibleLibError::ChapterNotFound)));
    assert!(matches!(bible.get_verses("john", 9), Err(BibleLibError::ChapterNotFound)));
    assert!(matches!(bible.get_max_verse("john", 9), Err(BibleLibError::ChapterNotFound)));
    assert!(matches!(
        bible.get_verse(BibleLookup::new_range("john", 9, 1, 2), false),
        Err(BibleLibError::ChapterNotFound)
    ));
}

#[test]
fn range_with_a_missing_verse_fails_as_a_whole() {
    let bible = load(SAMPLE);
    let found = bible.get_verse(BibleLookup::new_range("john", 3, 16, 18), false);
    assert!(matches!(found, Err(BibleLibError::VerseNotFound)));
    let found = bible.get_verse(BibleLookup::new_range("john", 3, 15, 17), false);
    assert!(matches!(found, Err(BibleLibError::VerseNotFound)));
}

#[test]
fn range_of_one_verse_is_that_verse() {
    let bible = load(SAMPLE);
    let text = bible.get_verse(BibleLookup::new_range("john", 3, 17, 17), false).unwrap();
    assert_eq!(text, "For God did not send...");
}

#[test]
fn range_that_ends_before_it_starts_is_empty() {
    let bible = load(SAMPLE);
    let text = bible.get_verse(BibleLookup::new_range("john", 3, 17, 16), false).unwrap();
    assert_eq!(text, "");
    let text = bible.get_verse(BibleLookup::new_range("mark", 1, 5, 3), false).unwrap();
    assert_eq!(text, "");
}

#[test]
fn range_equals_joined_single_lookups() {
    let text = "Psalms 23:1 The LORD is my shepherd.\n\
Psalms 23:2 He maketh me to lie down.\n\
Psalms 23:3 He restoreth my soul.\n\
Psalms 23:4 Yea, though I walk.\n";
    let bible = load(text);
    for first in 1..=4u32 {
        for last in first..=4u32 {
            let singles: Vec<String> = (first..=last)
                .map(|verse| bible.get_verse(BibleLookup::new("psalms", 23, verse), false).unwrap())
                .collect();
            let joined = singles.join(" ").trim().to_string();
            let range = bible
                .get_verse(BibleLookup::new_range("psalms", 23, first, last), false)
                .unwrap();
            assert_eq!(range, joined);
        }
    }
}

#[test]
fn range_is_trimmed_when_a_verse_has_no_text() {
    let bible = load("John 1:1 Word\nJohn 1:2\n");
    let text = bible.get_verse(BibleLookup::new_range("john", 1, 1, 2), false).unwrap();
    assert_eq!(text, "Word");
    let text = bible.get_verse(BibleLookup::new("john", 1, 2), false).unwrap();
    assert_eq!(text, "");
}

#[test]
fn superscripts_on_a_single_verse() {
    let bible = load(SAMPLE);
    let text = bible.get_verse(BibleLookup::new("john", 3, 16), true).unwrap();
    assert_eq!(text, "¹⁶For God so loved...");
}

#[test]
fn superscripts_on_a_range() {
    let bible = load(SAMPLE);
    let text = bible.get_verse(BibleLookup::new_range("john", 3, 16, 17), true).unwrap();
    assert_eq!(text, "¹⁶For God so loved... ¹⁷For God did not send...");
}

#[test]
fn chapter_is_in_ascending_order_whatever_the_order_of_the_lines() {
    let shuffled =
        "Luke 2:10 ten\nLuke 2:2 two\nLuke 2:33 thirty-three\nLuke 2:1 one\nLuke 2:9 nine\n";
    let sorted =
        "Luke 2:1 one\nLuke 2:2 two\nLuke 2:9 nine\nLuke 2:10 ten\nLuke 2:33 thirty-three\n";
    let expected = "one two nine ten thirty-three ";
    assert_eq!(load(shuffled).get_chapter("luke", 2, false).unwrap(), expected);
    assert_eq!(load(sorted).get_chapter("luke", 2, false).unwrap(), expected);
}

#[test]
fn chapter_keeps_the_space_after_the_last_verse() {
    let bible = load(SAMPLE);
    assert_eq!(
        bible.get_chapter("john", 3, false).unwrap(),
        "For God so loved... For God did not send... "
    );
}

#[test]
fn chapter_with_superscripts() {
    let bible = load("Luke 2:10 ten\nLuke 2:2 two\nLuke 2:1 one\n");
    assert_eq!(bible.get_chapter("luke", 2, true).unwrap(), "¹one ²two ¹⁰ten ");
}

#[test]
fn books_are_listed_once_each() {
    let bible = load(SAMPLE);
    let mut books = bible.get_books();
    books.sort();
    assert_eq!(books, vec!["1 samuel", "john", "song of solomon"]);
}

#[test]
fn chapters_are_listed_once_each() {
    let bible = load("Mark 2:1 a\nMark 1:1 b\nMark 16:3 c\nMark 2:5 d\nLuke 7:1 e\n");
    let mut chapters = bible.get_chapters("mark").unwrap();
    chapters.sort();
    assert_eq!(chapters, vec![1, 2, 16]);
}

#[test]
fn verses_are_listed_once_each() {
    let bible = load("Mark 2:1 a\nMark 2:7 b\nMark 2:3 c\nMark 2:7 d\nMark 3:9 e\n");
    let mut verses = bible.get_verses("mark", 2).unwrap();
    verses.sort();
    assert_eq!(verses, vec![1, 3, 7]);
}

#[test]
fn max_verse_is_the_highest_number() {
    let bible = load("Mark 2:1 a\nMark 2:176 b\nMark 2:3 c\nMark 3:9 e\n");
    assert_eq!(bible.get_max_verse("mark", 2).unwrap(), 176);
    assert_eq!(bible.get_max_verse("mark", 3).unwrap(), 9);
}

#[test]
fn translation_is_kept() {
    let bible = Bible::new(Translation::KingJames, &SAMPLE.to_string()).unwrap();
    assert_eq!(*bible.get_translation(), Translation::KingJames);
    let bible = load(SAMPLE);
    assert_eq!(*bible.get_translation(), custom());
}

#[test]
fn random_verse_is_in_the_index() {
    let bible = load(SAMPLE);
    for _ in 0..50 {
        let lookup = bible.random_verse();
        assert_eq!(lookup.thru_verse, None);
        assert!(bible.get_books().contains(&lookup.book));
        assert!(bible.get_chapters(&lookup.book).unwrap().contains(&lookup.chapter));
        assert!(bible.get_verses(&lookup.book, lookup.chapter).unwrap().contains(&lookup.verse));
        assert!(bible.get_verse(lookup, false).is_ok());
    }
}

#[test]
fn random_verse_of_a_single_verse_corpus() {
    let bible = load("Jude 1:25 To the only wise God.\n");
    let lookup = bible.random_verse();
    assert_eq!(lookup, BibleLookup::new("jude", 1, 25));
}

#[test]
fn random_verse_reaches_every_book() {
    let bible = load(SAMPLE);
    let mut seen: Vec<String> = Vec::new();
    for _ in 0..400 {
        let lookup = bible.random_verse();
        if !seen.contains(&lookup.book) {
            seen.push(lookup.book);
        }
    }
    assert_eq!(seen.len(), 3);
}

#[test]
fn a_copy_answers_alike() {
    let bible = load(SAMPLE);
    let copy = bible.clone();
    assert_eq!(*copy.get_translation(), custom());
    let mut books = copy.get_books();
    books.sort();
    assert_eq!(books, vec!["1 samuel", "john", "song of solomon"]);
    assert_eq!(
        copy.get_verse(BibleLookup::new_range("john", 3, 16, 17), true).unwrap(),
        bible.get_verse(BibleLookup::new_range("john", 3, 16, 17), true).unwrap()
    );
    let lookup = BibleLookup::new_range("Luke", 23, 39, 43);
    assert_eq!(lookup.clone(), lookup);
}

#[test]
fn index_of_an_empty_corpus_is_empty() {
    assert!(load("").verses().is_empty());
    assert!(!load(SAMPLE).verses().is_empty());
}

#[test]
fn index_lists_its_books_in_the_order_of_the_corpus() {
    let bible = load(SAMPLE);
    let names: Vec<&String> = bible.verses().books().iter().map(|book| book.name()).collect();
    assert_eq!(names, vec!["john", "1 samuel", "song of solomon"]);
    let john = bible.verses().book("john").unwrap();
    assert_eq!(john.name(), "john");
    assert_eq!(john.chapters().len(), 1);
    assert_eq!(john.chapters()[&3][&16], "For God so loved...");
    assert!(bible.verses().book("John").is_none());
}

#[test]
fn large_corpus() {
    let mut text = String::new();
    for book in 0..66u32 {
        for chapter in (1..=20u32).rev() {
            for verse in (1..=25u32).rev() {
                text.push_str(&format!(
                    "Book Number {book} {chapter}:{verse} text of {book} {chapter} {verse}\n"
                ));
            }
        }
    }
    let bible = load(&text);
    assert_eq!(bible.get_books().len(), 66);
    assert_eq!(bible.get_chapters("book number 41").unwrap().len(), 20);
    assert_eq!(bible.get_max_verse("book number 65", 20).unwrap(), 25);
    assert_eq!(
        bible.get_verse(BibleLookup::new("Book Number 7", 13, 24), true).unwrap(),
        "²⁴text of 7 13 24"
    );
    let expected: String = (1..=25u32).map(|verse| format!("text of 30 2 {verse} ")).collect();
    assert_eq!(bible.get_chapter("book number 30", 2, false).unwrap(), expected);
    let range = bible.get_verse(BibleLookup::new_range("book number 30", 2, 1, 25), false);
    assert_eq!(range.unwrap(), expected.trim());
}
