use vstd::prelude::*;
use vstd::utf8::{decode_utf8, valid_utf8};

use crate::paths::{
    extension_of, file_name_of, lowercase_text, path_extension, path_file_name, text_eq,
    text_lowercase,
};

verus! {

#[derive(Debug, Clone)]
pub struct FileLoader;

/// Why a file could not be loaded.
#[derive(Debug)]
pub enum LoadError {
    /// The file could not be read; the message of the I/O error.
    Io(String),
    /// The file is not valid UTF-8.
    Encoding,
    /// The file is larger than `MAX_FILE_SIZE`.
    TooLarge,
}

/// The largest file that is loaded: 50 MB.
pub const MAX_FILE_SIZE: u64 = 52428800;

/// The extensions, in lowercase, of the files taken for markdown.
pub open spec fn markdown_extension(lower: Seq<char>) -> bool {
    lower == "md"@ || lower == "markdown"@ || lower == "mdown"@ || lower == "mkd"@ || lower
        == "mdx"@
}

/// Whether a path names a markdown file: its extension, lowercased, is one
/// of `md`, `markdown`, `mdown`, `mkd`, `mdx`.
pub open spec fn is_markdown_path(p: Seq<char>) -> bool {
    match path_extension(p) {
        Some(ext) => markdown_extension(text_lowercase(ext)),
        None => false,
    }
}

/// The title shown for a path: its file name, or `Untitled` when it has none.
pub open spec fn title_of(p: Seq<char>) -> Seq<char> {
    match path_file_name(p) {
        Some(n) => n,
        None => "Untitled"@,
    }
}

/// `String::from_utf8`, the error dropped.  Trusted: its documentation says
/// that it fails exactly on byte vectors that are not UTF-8, and otherwise
/// gives the string those bytes encode; the contract states that with vstd's
/// model of UTF-8.
#[verifier::external_body]
fn string_from_utf8(bytes: Vec<u8>) -> (s: Option<String>)
    ensures
        match s {
            Some(s) => valid_utf8(bytes@) && s@ == decode_utf8(bytes@),
            None => !valid_utf8(bytes@),
        },
{
    String::from_utf8(bytes).ok()
}

impl FileLoader {
    /// Whether a file of `len` bytes may be loaded; `TooLarge` above `MAX_FILE_SIZE`.
    pub fn check_size(len: u64) -> (r: Result<(), LoadError>)
        ensures
            r is Ok <==> len <= MAX_FILE_SIZE,
            r is Err ==> r->Err_0 is TooLarge,
    {
        if len > MAX_FILE_SIZE {
            Err(LoadError::TooLarge)
        } else {
            Ok(())
        }
    }

    /// The text that a file's bytes encode; `Encoding` when they are not UTF-8.
    pub fn decode(bytes: Vec<u8>) -> (r: Result<String, LoadError>)
        ensures
            r is Ok <==> valid_utf8(bytes@),
            r matches Ok(s) ==> s@ == decode_utf8(bytes@),
            r is Err ==> r->Err_0 is Encoding,
    {
        match string_from_utf8(bytes) {
            Some(s) => Ok(s),
            None => Err(LoadError::Encoding),
        }
    }

    pub fn is_markdown_file(path: &str) -> (b: bool)
        ensures
            b == is_markdown_path(path@),
    {
        match extension_of(path) {
            Some(ext) => {
                let lower = lowercase_text(ext.as_str());
                let l = lower.as_str();
                text_eq(l, "md") || text_eq(l, "markdown") || text_eq(l, "mdown") || text_eq(
                    l,
                    "mkd",
                ) || text_eq(l, "mdx")
            },
            None => false,
        }
    }

    pub fn file_title(path: &str) -> (title: String)
        ensures
            title@ == title_of(path@),
    {
        match file_name_of(path) {
            Some(n) => n,
            None => String::from_str("Untitled"),
        }
    }
}

} // verus!
