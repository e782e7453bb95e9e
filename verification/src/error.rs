//! The failures that loading and querying a corpus can report.
use vstd::prelude::*;
use vstd::string::StringExecFns;

verus! {

/// `std::io::Error`, the platform's I/O error. It is carried through unchanged, and
/// nothing is claimed of what it holds.
#[verifier::external_type_specification]
#[verifier::external_body]
pub struct ExIoError(std::io::Error);

/// Errors that can occur while loading or querying a corpus.
#[derive(Debug)]
pub enum BibleLibError {
    /// The specified custom translation file is invalid or does not exist.
    InvalidCustomTranslationFile,
    /// The specified verse was not found in the translation.
    VerseNotFound,
    /// The specified chapter was not found in the translation.
    ChapterNotFound,
    /// The specified book was not found in the translation.
    BookNotFound,
    /// The verse format provided is invalid.
    InvalidVerseFormat,
    /// An I/O error occurred.
    IOError(std::io::Error),
}

impl BibleLibError {
    /// What the error says, but for an I/O error, whose words are the platform's.
    pub open spec fn message(&self) -> Seq<char> {
        match self {
            BibleLibError::InvalidCustomTranslationFile =>
                "The specified custom translation file is invalid or does not exist."@,
            BibleLibError::VerseNotFound =>
                "The specified verse was not found in the translation."@,
            BibleLibError::ChapterNotFound =>
                "The specified chapter was not found in the translation."@,
            BibleLibError::BookNotFound => "The specified book was not found in the translation."@,
            BibleLibError::InvalidVerseFormat => "The verse format provided is invalid."@,
            BibleLibError::IOError(_) => "An I/O error occurred: "@,
        }
    }

    /// What the error says. For an I/O error the platform's own description follows the
    /// words given by [`BibleLibError::message`].
    pub fn to_text(&self) -> (shown: String)
        ensures
            !(self is IOError) ==> shown@ == self.message(),
            self is IOError ==> self.message().is_prefix_of(shown@),
    {
        match self {
            BibleLibError::InvalidCustomTranslationFile =>
                "The specified custom translation file is invalid or does not exist.".to_owned(),
            BibleLibError::VerseNotFound =>
                "The specified verse was not found in the translation.".to_owned(),
            BibleLibError::ChapterNotFound =>
                "The specified chapter was not found in the translation.".to_owned(),
            BibleLibError::BookNotFound =>
                "The specified book was not found in the translation.".to_owned(),
            BibleLibError::InvalidVerseFormat => "The verse format provided is invalid.".to_owned(),
            BibleLibError::IOError(error) => {
                let mut shown = "An I/O error occurred: ".to_owned();
                let detail = describe_io_error(error);
                shown.append(detail.as_str());
                shown
            },
        }
    }
}

/// `std::io::Error` describes itself through `Display`; the words depend on the
/// platform, so nothing is claimed of them.
#[verifier::external_body]
fn describe_io_error(error: &std::io::Error) -> String {
    format!("{}", error)
}

} // verus!
