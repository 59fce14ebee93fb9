//! Telling the files that hold a document by their names.

use crate::error::{Error, ErrorModel};
use crate::markup::same_text;
use crate::wordwrap::chars_of;
use std::path::Path;
use vstd::prelude::*;
use vstd::string::*;

verus! {

/// Whether `piece` stands in `text` at the place `at`, character by
/// character.
pub open spec fn stands_at(text: Seq<char>, piece: Seq<char>, at: int) -> bool {
    0 <= at && at + piece.len() <= text.len() && text.subrange(at, at + piece.len()) == piece
}

/// Whether `piece` stands somewhere in `text`.
pub open spec fn holds(text: Seq<char>, piece: Seq<char>) -> bool {
    exists|at: int| stands_at(text, piece, at)
}

/// Calls `std::path::Path::extension` on `path`. Taken on trust, as that
/// function is documented: the extension is the part of the file name behind
/// its last dot, so it holds no dot itself and stands in the path behind a
/// dot. Which part of a path is its file name differs between systems, and
/// nothing is claimed of that.
#[verifier::external_body]
fn extension_of(path: &str) -> (extension: Option<String>)
    ensures
        extension matches Some(e) ==> holds(path@, seq!['.'] + e@),
        extension matches Some(e) ==> forall|k: int| 0 <= k < e@.len() ==> e@[k] != '.',
{
    Path::new(path).extension().and_then(|e| e.to_str()).map(|e| e.to_string())
}

/// Calls `std::path::Path::file_stem` on `path`. Taken on trust, as that
/// function is documented: the stem is the file name or the part of it before
/// its last dot, so it stands in the path. Which part of a path is its file
/// name differs between systems, and nothing is claimed of that.
#[verifier::external_body]
fn file_stem_of(path: &str) -> (stem: Option<String>)
    ensures
        stem matches Some(s) ==> holds(path@, s@),
{
    Path::new(path).file_stem().and_then(|s| s.to_str()).map(|s| s.to_string())
}

/// Whether `text` ends with `end`.
pub open spec fn ends_with(text: Seq<char>, end: Seq<char>) -> bool {
    end.len() <= text.len() && text.skip(text.len() - end.len()) == end
}

/// Whether the extension of a file says that the file holds markup.
pub open spec fn xml_extension(extension: Option<Seq<char>>) -> bool {
    extension == Some("xml"@)
}

/// Whether the extension and the stem of a file say that the file holds
/// compressed markup: the extension is `xz`, and the stem ends with `xml`.
pub open spec fn xz_xml_name(extension: Option<Seq<char>>, stem: Option<Seq<char>>) -> bool {
    extension == Some("xz"@) && stem is Some && ends_with(stem->0, "xml"@)
}

/// The view of an optional text.
pub open spec fn text_view(text: Option<String>) -> Option<Seq<char>> {
    match text {
        Some(t) => Some(t@),
        None => None,
    }
}

/// Tells whether `text` ends with `end`.
pub fn has_ending(text: &str, end: &str) -> (found: bool)
    ensures
        found == ends_with(text@, end@),
{
    let long = chars_of(text);
    let short = chars_of(end);
    if short.len() > long.len() {
        return false;
    }
    let shift = long.len() - short.len();
    let mut k: usize = 0;
    while k < short.len()
        invariant
            k <= short.len(),
            shift + short.len() == long.len(),
            long@ == text@,
            short@ == end@,
            forall|j: int| 0 <= j < k ==> long@[shift + j] == short@[j],
        decreases short.len() - k,
    {
        if long[shift + k] != short[k] {
            proof {
                assert(text@.skip(shift as int)[k as int] == long@[shift + k]);
            }
            return false;
        }
        k = k + 1;
    }
    proof {
        assert(text@.skip(shift as int) =~= end@);
    }
    true
}

/// Tells by its extension whether a file holds markup.
pub fn is_xml_name(extension: &Option<String>) -> (found: bool)
    ensures
        found == xml_extension(text_view(*extension)),
{
    match extension {
        Some(e) => same_text(e.as_str(), "xml"),
        None => false,
    }
}

/// Tells by its extension and its stem whether a file holds compressed
/// markup.
pub fn is_xz_xml_name(extension: &Option<String>, stem: &Option<String>) -> (found: bool)
    ensures
        found == xz_xml_name(text_view(*extension), text_view(*stem)),
{
    match extension {
        Some(e) => same_text(e.as_str(), "xz") && match stem {
            Some(s) => has_ending(s.as_str(), "xml"),
            None => false,
        },
        None => false,
    }
}

/// How a file holds its document.
#[derive(Clone, Copy, Debug, PartialEq, Eq, Structural)]
pub enum Source {
    /// As markup.
    Plain,
    /// As compressed markup.
    Compressed,
}

/// How a file with the given extension and stem holds its document, if it
/// holds one. A name that says both is taken as compressed.
pub open spec fn source_kind(extension: Option<Seq<char>>, stem: Option<Seq<char>>) -> Option<
    Source,
> {
    if xz_xml_name(extension, stem) {
        Some(Source::Compressed)
    } else if xml_extension(extension) {
        Some(Source::Plain)
    } else {
        None
    }
}

/// Tells by its extension and its stem how a file holds its document. A
/// file that is neither markup nor compressed markup is no file for a
/// document.
pub fn source_by_name(extension: &Option<String>, stem: &Option<String>) -> (result: Result<
    Source,
    Error,
>)
    ensures
        match result {
            Ok(source) => source_kind(text_view(*extension), text_view(*stem)) == Some(source),
            Err(error) => source_kind(text_view(*extension), text_view(*stem)) is None && error@
                == ErrorModel::InvalidBibleFile,
        },
{
    if is_xz_xml_name(extension, stem) {
        Ok(Source::Compressed)
    } else if is_xml_name(extension) {
        Ok(Source::Plain)
    } else {
        Err(Error::InvalidBibleFile)
    }
}

/// Where a piece stands in a text, every ending of the piece does.
pub proof fn lemma_holds_ending(text: Seq<char>, piece: Seq<char>, end: Seq<char>)
    requires
        holds(text, piece),
        ends_with(piece, end),
    ensures
        holds(text, end),
{
    let at = choose|at: int| stands_at(text, piece, at);
    let shift = piece.len() - end.len();
    assert(text.subrange(at + shift, at + shift + end.len()) =~= piece.skip(shift));
    assert(stands_at(text, end, at + shift));
}

/// How the file at `path` holds its document, by its name. The system's own
/// reading of the path decides which part of it is the name of the file.
/// Whatever that reading is, a file is taken for markup only where its path
/// holds `.xml`, and for compressed markup only where its path holds `.xz`
/// and `xml`; every other file is no file for a document.
pub fn source_of(path: &str) -> (result: Result<Source, Error>)
    ensures
        match result {
            Ok(Source::Plain) => holds(path@, ".xml"@),
            Ok(Source::Compressed) => holds(path@, ".xz"@) && holds(path@, "xml"@),
            Err(error) => error@ == ErrorModel::InvalidBibleFile,
        },
{
    let extension = extension_of(path);
    let stem = file_stem_of(path);
    proof {
        reveal_strlit("xml");
        reveal_strlit(".xml");
        reveal_strlit("xz");
        reveal_strlit(".xz");
        assert(seq!['.'] + "xml"@ =~= ".xml"@);
        assert(seq!['.'] + "xz"@ =~= ".xz"@);
        if xz_xml_name(text_view(extension), text_view(stem)) {
            lemma_holds_ending(path@, stem->0@, "xml"@);
        }
    }
    source_by_name(&extension, &stem)
}

/// Whether the file at `path` holds markup, by its extension. The system's
/// own reading of the path decides what the extension is; a path that is
/// taken for markup holds `.xml`.
pub fn is_xml_file(path: &str) -> (found: bool)
    ensures
        found ==> holds(path@, ".xml"@),
{
    let extension = extension_of(path);
    proof {
        reveal_strlit("xml");
        reveal_strlit(".xml");
        assert(seq!['.'] + "xml"@ =~= ".xml"@);
    }
    is_xml_name(&extension)
}

/// Whether the file at `path` holds compressed markup, by its extension and
/// its stem. The system's own reading of the path decides what they are; a
/// path that is taken for compressed markup holds `.xz` and `xml`.
pub fn is_xz_compressed_xml(path: &str) -> (found: bool)
    ensures
        found ==> holds(path@, ".xz"@) && holds(path@, "xml"@),
{
    let extension = extension_of(path);
    let stem = file_stem_of(path);
    proof {
        reveal_strlit("xz");
        reveal_strlit(".xz");
        assert(seq!['.'] + "xz"@ =~= ".xz"@);
        if xz_xml_name(text_view(extension), text_view(stem)) {
            lemma_holds_ending(path@, stem->0@, "xml"@);
        }
    }
    is_xz_xml_name(&extension, &stem)
}

} // verus!
