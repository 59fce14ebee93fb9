//! What can go wrong when a document is loaded or looked into.

use vstd::prelude::*;

verus! {

/// The failures of the library.
#[derive(Debug)]
pub enum Error {
    /// The source is neither a markup file nor a compressed one.
    InvalidBibleFile,
    /// The markup could not be read; the reason is given.
    BibleIndex(String),
    /// No book has the given name.
    BookNotFound(String),
    /// The book has no chapter of the given number.
    ChapterNotFound(String, usize),
    /// The chapter has no verse of the given number.
    VerseNotFound(String, usize, usize),
    /// No document is known for the given translation.
    UnsupprtedTranslation(String),
}

/// What an [`Error`] holds.
pub enum ErrorModel {
    InvalidBibleFile,
    BibleIndex(Seq<char>),
    BookNotFound(Seq<char>),
    ChapterNotFound(Seq<char>, usize),
    VerseNotFound(Seq<char>, usize, usize),
    UnsupprtedTranslation(Seq<char>),
}

impl View for Error {
    type V = ErrorModel;

    open spec fn view(&self) -> ErrorModel {
        match self {
            Error::InvalidBibleFile => ErrorModel::InvalidBibleFile,
            Error::BibleIndex(reason) => ErrorModel::BibleIndex(reason@),
            Error::BookNotFound(book) => ErrorModel::BookNotFound(book@),
            Error::ChapterNotFound(book, chapter) => ErrorModel::ChapterNotFound(book@, *chapter),
            Error::VerseNotFound(book, chapter, verse) => ErrorModel::VerseNotFound(
                book@,
                *chapter,
                *verse,
            ),
            Error::UnsupprtedTranslation(name) => ErrorModel::UnsupprtedTranslation(name@),
        }
    }
}

impl ErrorModel {
    /// The sentence that describes the failure. A missing verse is reported
    /// in the words of a missing chapter.
    pub open spec fn message(self) -> Seq<char> {
        match self {
            ErrorModel::InvalidBibleFile => "Invalid file for bible"@,
            ErrorModel::BibleIndex(_) => "Could not create bible index"@,
            ErrorModel::BookNotFound(_) => "No matching book"@,
            ErrorModel::ChapterNotFound(_, _) => "No matching chapter"@,
            ErrorModel::VerseNotFound(_, _, _) => "No matching chapter"@,
            ErrorModel::UnsupprtedTranslation(_) => "Translation not supported"@,
        }
    }
}

impl Error {
    /// The sentence that describes the failure.
    pub fn message(&self) -> (text: String)
        ensures
            text@ == self@.message(),
    {
        match self {
            Error::InvalidBibleFile => "Invalid file for bible".to_owned(),
            Error::BibleIndex(_) => "Could not create bible index".to_owned(),
            Error::BookNotFound(_) => "No matching book".to_owned(),
            Error::ChapterNotFound(_, _) => "No matching chapter".to_owned(),
            Error::VerseNotFound(_, _, _) => "No matching chapter".to_owned(),
            Error::UnsupprtedTranslation(_) => "Translation not supported".to_owned(),
        }
    }
}

} // verus!
