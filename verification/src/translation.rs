//! The translations a corpus may be taken from.
use vstd::prelude::*;
use vstd::string::StringExecFns;

verus! {

/// A translation: one of the bundled ones, or a corpus file of the caller's own.
#[derive(Debug, PartialEq, Eq)]
pub enum Translation {
    /// American King James Version
    AmericanKingJames,
    /// American Standard Version
    AmericanStandard,
    /// English Revised Version
    EnglishedRevised,
    /// King James Version
    KingJames,
    /// A corpus file of the caller's own, each line a verse written as
    /// `Book Chapter:Verse Content`. The name is for display only.
    Custom { name: String, path: String },
}

impl Clone for Translation {
    /// A copy of the translation.
    fn clone(&self) -> (copy: Self)
        ensures
            copy == *self,
    {
        match self {
            Translation::AmericanKingJames => Translation::AmericanKingJames,
            Translation::AmericanStandard => Translation::AmericanStandard,
            Translation::EnglishedRevised => Translation::EnglishedRevised,
            Translation::KingJames => Translation::KingJames,
            Translation::Custom { name, path } => Translation::Custom {
                name: name.clone(),
                path: path.clone(),
            },
        }
    }
}

impl Default for Translation {
    fn default() -> (translation: Self)
        ensures
            translation == Translation::AmericanKingJames,
    {
        Translation::AmericanKingJames
    }
}

impl Translation {
    /// The name under which the translation is shown.
    pub open spec fn title(&self) -> Seq<char> {
        match self {
            Translation::AmericanKingJames => "American King James Version"@,
            Translation::AmericanStandard => "American Standard Version"@,
            Translation::EnglishedRevised => "English Revised Version"@,
            Translation::KingJames => "King James Version"@,
            Translation::Custom { name, .. } => "Custom Translation: "@ + name@,
        }
    }

    /// The name under which the translation is shown.
    pub fn to_text(&self) -> (shown: String)
        ensures
            shown@ == self.title(),
    {
        match self {
            Translation::AmericanKingJames => "American King James Version".to_owned(),
            Translation::AmericanStandard => "American Standard Version".to_owned(),
            Translation::EnglishedRevised => "English Revised Version".to_owned(),
            Translation::KingJames => "King James Version".to_owned(),
            Translation::Custom { name, .. } => {
                let mut shown = "Custom Translation: ".to_owned();
                shown.append(name.as_str());
                shown
            },
        }
    }
}

} // verus!
