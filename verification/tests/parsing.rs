use bible_lib::Bible;
use bible_lib::corpus::{parse_line, Verse};
use bible_lib::error::BibleLibError;
use bible_lib::BibleLookup;
use bible_lib::Translation;

fn build(text: &str) -> Result<Bible, BibleLibError> {
    Bible::new(Translation::AmericanStandard, &text.to_string())
}

fn line(text: &str) -> Option<Verse> {
    parse_line(&text.chars().collect())
}

fn verse(book: &str, chapter: u32, verse: u32, text: &str) -> Verse {
    Verse { book: book.to_string(), chapter, verse, text: text.to_string() }
}

#[test]
fn line_with_a_one_word_book() {
    assert_eq!(line("John 3:16 For God so loved"), Some(verse("john", 3, 16, "For God so loved")));
}

#[test]
fn line_with_a_book_of_several_words() {
    assert_eq!(
        line("1 Samuel 17:4 And there went"),
        Some(verse("1 samuel", 17, 4, "And there went"))
    );
    assert_eq!(
        line("Song of Solomon 2:1 I am the rose"),
        Some(verse("song of solomon", 2, 1, "I am the rose"))
    );
}

#[test]
fn line_white_space_is_normalised() {
    assert_eq!(
        line("  Song   of\tSolomon  2 : 1   I  am \t the rose  "),
        Some(verse("song of solomon", 2, 1, "I am the rose"))
    );
}

#[test]
fn line_text_keeps_later_colons() {
    assert_eq!(
        line("Genesis 1:3 And God said: Let there be light: and there was light."),
        Some(verse("genesis", 1, 3, "And God said: Let there be light: and there was light."))
    );
}

#[test]
fn line_without_text_has_empty_text() {
    assert_eq!(line("John 3:16"), Some(verse("john", 3, 16, "")));
}

#[test]
fn line_numbers_may_have_a_plus_sign_and_leading_zeros() {
    assert_eq!(line("John +3:016 text"), Some(verse("john", 3, 16, "text")));
}

#[test]
fn line_with_the_largest_numbers() {
    assert_eq!(
        line("John 4294967295:4294967295 text"),
        Some(verse("john", 4294967295, 4294967295, "text"))
    );
}

#[test]
fn line_without_a_colon_is_malformed() {
    assert_eq!(line("John 3 16 For God so loved"), None);
}

#[test]
fn empty_line_is_malformed() {
    assert_eq!(line(""), None);
    assert_eq!(line("   "), None);
}

#[test]
fn line_without_a_book_is_malformed() {
    assert_eq!(line("3:16 For God so loved"), None);
}

#[test]
fn line_without_a_chapter_is_malformed() {
    assert_eq!(line("John :16 For God so loved"), None);
    assert_eq!(line("John three:16 For God so loved"), None);
}

#[test]
fn line_without_a_verse_is_malformed() {
    assert_eq!(line("John 3:"), None);
    assert_eq!(line("John 3: For God so loved"), None);
    assert_eq!(line("John 3:16a For God so loved"), None);
}

#[test]
fn line_with_a_number_zero_is_malformed() {
    assert_eq!(line("John 0:16 text"), None);
    assert_eq!(line("John 3:0 text"), None);
}

#[test]
fn line_with_a_number_too_large_is_malformed() {
    assert_eq!(line("John 4294967296:1 text"), None);
    assert_eq!(line("John 1:4294967296 text"), None);
    assert_eq!(line("John 1:99999999999999999999999 text"), None);
}

#[test]
fn line_with_a_negative_number_is_malformed() {
    assert_eq!(line("John -3:16 text"), None);
    assert_eq!(line("John 3:-16 text"), None);
    assert_eq!(line("John +:16 text"), None);
}

#[test]
fn corpus_with_a_malformed_line_is_refused() {
    for text in [
        "John 3:16 ok\nthis line has no verse\nJohn 3:17 ok\n",
        "John 3:16 ok\n\nJohn 3:17 ok\n",
        "John 3:16 ok\nJohn 3:x bad",
        "\n",
    ] {
        assert!(matches!(build(text), Err(BibleLibError::InvalidVerseFormat)));
        assert!(matches!(
            Bible::parse_text(&text.to_string()),
            Err(BibleLibError::InvalidVerseFormat)
        ));
    }
}

#[test]
fn empty_corpus_has_no_books() {
    let bible = build("").unwrap();
    assert!(bible.get_books().is_empty());
    assert!(matches!(
        bible.get_verse(BibleLookup::new("john", 3, 16), false),
        Err(BibleLibError::BookNotFound)
    ));
}

#[test]
fn last_line_needs_no_line_feed() {
    let bible = build("John 3:16 first\nJohn 3:17 second").unwrap();
    assert_eq!(bible.get_verse(BibleLookup::new("john", 3, 17), false).unwrap(), "second");
}

#[test]
fn carriage_returns_end_lines_too() {
    let bible = build("John 3:16 first\r\nJohn 3:17 second\r\n").unwrap();
    assert_eq!(bible.get_verse(BibleLookup::new("john", 3, 16), false).unwrap(), "first");
    assert_eq!(bible.get_verse(BibleLookup::new("john", 3, 17), false).unwrap(), "second");
    assert_eq!(bible.get_chapter("john", 3, false).unwrap(), "first second ");
}

#[test]
fn later_line_for_the_same_verse_wins() {
    let bible = build("John 3:16 first\nJohn 3:17 other\nJOHN 3:16 second\n").unwrap();
    assert_eq!(bible.get_verse(BibleLookup::new("john", 3, 16), false).unwrap(), "second");
    assert_eq!(bible.get_verses("john", 3).unwrap().len(), 2);
    assert_eq!(bible.get_books(), vec!["john"]);
}

#[test]
fn book_names_are_stored_in_lower_case() {
    let bible = build("JOHN 3:16 a\nSong Of SOLOMON 1:1 b\n").unwrap();
    let mut books = bible.get_books();
    books.sort();
    assert_eq!(books, vec!["john", "song of solomon"]);
}

#[test]
fn parsing_twice_gives_the_same_index() {
    let text = "John 3:16 a\nJohn 3:17 b\nMark 1:1 c\nJohn 4:1 d\nMark 1:1 e\n";
    let first = build(text).unwrap();
    let second = build(text).unwrap();
    let mut books = first.get_books();
    let mut again = second.get_books();
    books.sort();
    again.sort();
    assert_eq!(books, again);
    for book in books {
        let mut chapters = first.get_chapters(&book).unwrap();
        let mut chapters_again = second.get_chapters(&book).unwrap();
        chapters.sort();
        chapters_again.sort();
        assert_eq!(chapters, chapters_again);
        for chapter in chapters {
            let mut verses = first.get_verses(&book, chapter).unwrap();
            let mut verses_again = second.get_verses(&book, chapter).unwrap();
            verses.sort();
            verses_again.sort();
            assert_eq!(verses, verses_again);
            for verse in verses {
                assert_eq!(
                    first.get_verse(BibleLookup::new(&book, chapter, verse), false).unwrap(),
                    second.get_verse(BibleLookup::new(&book, chapter, verse), false).unwrap()
                );
            }
            assert_eq!(
                first.get_chapter(&book, chapter, true).unwrap(),
                second.get_chapter(&book, chapter, true).unwrap()
            );
        }
    }
}

#[test]
fn parse_text_gives_an_index_for_a_good_corpus() {
    assert!(Bible::parse_text(&"John 3:16 a\nJohn 3:17 b\n".to_string()).is_ok());
    assert!(Bible::parse_text(&String::new()).is_ok());
}
