//! What the application is set up with.

use crate::error::{Error, ErrorModel};
use crate::markup::same_text;
use vstd::prelude::*;
use vstd::string::*;

verus! {

/// The version of the application.
pub const VERSION: &'static str = "0.1.0";

/// The translation that is read where none is chosen.
pub const DEFAULT_TRANSLATION: &'static str = "KJV";

/// The file of the default translation.
pub const DEFAULT_TRANSLATION_FILE: &'static str = "assets/eng-kjv.osis.xml.xz";

/// The time for one frame, in milliseconds, at 120 frames in a second.
pub const TARGET_FRAMETIME_MILLIS: u64 = 8;

/// The translations that the application knows, each with the file that
/// holds it.
pub fn get_translations() -> (translations: Vec<(String, String)>)
    ensures
        translations@.len() == 1,
        translations@[0].0@ == DEFAULT_TRANSLATION@,
        translations@[0].1@ == DEFAULT_TRANSLATION_FILE@,
{
    let mut translations: Vec<(String, String)> = Vec::new();
    translations.push((DEFAULT_TRANSLATION.to_owned(), DEFAULT_TRANSLATION_FILE.to_owned()));
    translations
}

/// The file that holds the translation `name`. A translation that the
/// application does not know is not supported.
pub fn translation_file(name: &str) -> (file: Result<String, Error>)
    ensures
        match file {
            Ok(path) => name@ == DEFAULT_TRANSLATION@ && path@ == DEFAULT_TRANSLATION_FILE@,
            Err(error) => name@ != DEFAULT_TRANSLATION@ && error@
                == ErrorModel::UnsupprtedTranslation(name@),
        },
{
    if same_text(name, DEFAULT_TRANSLATION) {
        Ok(DEFAULT_TRANSLATION_FILE.to_owned())
    } else {
        Err(Error::UnsupprtedTranslation(name.to_owned()))
    }
}

} // verus!
