use bible_lib::error::BibleLibError;
use bible_lib::BibleLookup;
use bible_lib::Translation;

fn single(book: &str, chapter: u32, verse: u32) -> BibleLookup {
    BibleLookup { book: book.to_string(), chapter, verse, thru_verse: None }
}

fn range(book: &str, chapter: u32, verse: u32, last: u32) -> BibleLookup {
    BibleLookup { book: book.to_string(), chapter, verse, thru_verse: Some(last) }
}

#[test]
fn capitalize_numbered_book() {
    assert_eq!(BibleLookup::capitalize_book(&"1 samuel".to_string()), "1 Samuel");
}

#[test]
fn capitalize_one_word_book() {
    assert_eq!(BibleLookup::capitalize_book(&"john".to_string()), "John");
}

#[test]
fn capitalize_every_word_alike() {
    assert_eq!(BibleLookup::capitalize_book(&"song of solomon".to_string()), "Song Of Solomon");
}

#[test]
fn capitalize_joins_words_by_single_spaces() {
    assert_eq!(
        BibleLookup::capitalize_book(&"  song   of\tsolomon ".to_string()),
        "Song Of Solomon"
    );
    assert_eq!(BibleLookup::capitalize_book(&String::new()), "");
}

#[test]
fn capitalize_letters_with_a_longer_upper_case() {
    assert_eq!(BibleLookup::capitalize_book(&"ßeta ǆ".to_string()), "SSeta Ǆ");
    assert_eq!(BibleLookup::capitalize_book(&"²kings JOHN".to_string()), "²kings JOHN");
}

#[test]
fn new_lowers_the_book() {
    assert_eq!(BibleLookup::new("John", 3, 16), single("john", 3, 16));
    assert_eq!(BibleLookup::new("1 SAMUEL", 17, 4), single("1 samuel", 17, 4));
}

#[test]
fn new_range_lowers_the_book() {
    assert_eq!(BibleLookup::new_range("Luke", 23, 39, 43), range("luke", 23, 39, 43));
}

#[test]
fn lookup_is_written_out() {
    assert_eq!(BibleLookup::new("john", 3, 16).to_text(), "John 3:16");
    assert_eq!(BibleLookup::new_range("1 samuel", 3, 1, 10).to_text(), "1 Samuel 3:1-10");
    assert_eq!(BibleLookup::new("Song of Solomon", 2, 1).to_text(), "Song Of Solomon 2:1");
}

#[test]
fn detect_one_reference() {
    assert_eq!(BibleLookup::detect_from_string("Show me John 3:16"), vec![single("john", 3, 16)]);
}

#[test]
fn detect_a_range() {
    assert_eq!(
        BibleLookup::detect_from_string("Read Luke 23:39-43 tonight"),
        vec![range("luke", 23, 39, 43)]
    );
}

#[test]
fn detect_several_references_in_order() {
    assert_eq!(
        BibleLookup::detect_from_string(
            "Compare 1 Samuel 17:4 with SONG OF SOLOMON 2:1-3, then john 1:1."
        ),
        vec![single("1 samuel", 17, 4), range("song of solomon", 2, 1, 3), single("john", 1, 1)]
    );
}

#[test]
fn detect_nothing() {
    assert_eq!(BibleLookup::detect_from_string("nothing to see here"), Vec::<BibleLookup>::new());
    assert_eq!(BibleLookup::detect_from_string("John 3"), Vec::<BibleLookup>::new());
    assert_eq!(BibleLookup::detect_from_string(""), Vec::<BibleLookup>::new());
}

#[test]
fn detect_passes_over_numbers_that_are_too_large() {
    assert_eq!(
        BibleLookup::detect_from_string("john 99999999999:1 and mark 1:2"),
        vec![single("mark", 1, 2)]
    );
}

#[test]
fn detect_passes_over_digits_that_are_not_ascii() {
    assert_eq!(
        BibleLookup::detect_from_string("john ٣:١٦ and then Jude 1:25"),
        vec![single("jude", 1, 25)]
    );
}

#[test]
fn detect_reads_a_range_up_to_the_hyphen() {
    assert_eq!(
        BibleLookup::detect_from_string("luke 2:1-x, acts 2:1-2-3"),
        vec![single("luke", 2, 1), range("acts", 2, 1, 2)]
    );
}

#[test]
fn detect_book_written_without_a_space() {
    assert_eq!(BibleLookup::detect_from_string("see 1samuel 3:4"), vec![single("1samuel", 3, 4)]);
}

#[test]
fn parse_reference_reads_a_matched_place() {
    assert_eq!(BibleLookup::parse_reference("john 3:16"), Some(single("john", 3, 16)));
    assert_eq!(
        BibleLookup::parse_reference("song of  solomon 2:1-3"),
        Some(range("song of solomon", 2, 1, 3))
    );
    assert_eq!(BibleLookup::parse_reference("john 0:0"), Some(single("john", 0, 0)));
}

#[test]
fn parse_reference_refuses_what_it_cannot_read() {
    assert_eq!(BibleLookup::parse_reference("john 3"), None);
    assert_eq!(BibleLookup::parse_reference(":16"), None);
    assert_eq!(BibleLookup::parse_reference("john 3:x"), None);
    assert_eq!(BibleLookup::parse_reference("john 3:1-"), None);
    assert_eq!(BibleLookup::parse_reference("john 3:-2"), None);
    assert_eq!(BibleLookup::parse_reference("john 3:16 "), None);
    assert_eq!(BibleLookup::parse_reference("john 4294967296:1"), None);
}

#[test]
fn lookups_of_passes_over_unreadable_places() {
    let places = vec!["john 3:16".to_string(), "john".to_string(), "mark 1:2-3".to_string()];
    assert_eq!(
        BibleLookup::lookups_of(&places),
        vec![single("john", 3, 16), range("mark", 1, 2, 3)]
    );
}

#[test]
fn error_messages() {
    assert_eq!(
        BibleLibError::InvalidCustomTranslationFile.to_text(),
        "The specified custom translation file is invalid or does not exist."
    );
    assert_eq!(
        BibleLibError::VerseNotFound.to_text(),
        "The specified verse was not found in the translation."
    );
    assert_eq!(
        BibleLibError::ChapterNotFound.to_text(),
        "The specified chapter was not found in the translation."
    );
    assert_eq!(
        BibleLibError::BookNotFound.to_text(),
        "The specified book was not found in the translation."
    );
    assert_eq!(
        BibleLibError::InvalidVerseFormat.to_text(),
        "The verse format provided is invalid."
    );
}

#[test]
fn io_error_message_ends_with_the_platform_words() {
    let inner = std::io::Error::new(std::io::ErrorKind::Other, "disk on fire");
    assert_eq!(BibleLibError::IOError(inner).to_text(), "An I/O error occurred: disk on fire");
}

#[test]
fn translation_names() {
    assert_eq!(Translation::AmericanKingJames.to_text(), "American King James Version");
    assert_eq!(Translation::AmericanStandard.to_text(), "American Standard Version");
    assert_eq!(Translation::EnglishedRevised.to_text(), "English Revised Version");
    assert_eq!(Translation::KingJames.to_text(), "King James Version");
    let custom = Translation::Custom { name: "Mine".to_string(), path: "mine.txt".to_string() };
    assert_eq!(custom.to_text(), "Custom Translation: Mine");
}

#[test]
fn default_translation() {
    assert_eq!(Translation::default(), Translation::AmericanKingJames);
}
