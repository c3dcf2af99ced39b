//! File paths as URIs.

use vstd::prelude::*;
use vstd::string::StringExecFns;

verus! {

/// The text of the `file` URL that `Url::from_file_path` makes of a path;
/// none where it refuses the path.
pub uninterp spec fn file_uri(path: Seq<char>) -> Option<Seq<char>>;

/// The text of the URL that `Url::parse` makes of a text; none where it
/// refuses the text.
pub uninterp spec fn parsed_uri(text: Seq<char>) -> Option<Seq<char>>;

/// The characters of an optional string.
pub open spec fn text_of(value: Option<String>) -> Option<Seq<char>> {
    match value {
        Some(text) => Some(text@),
        None => None,
    }
}

/// Calls `Url::from_file_path` and hands out the URL as text. The contract
/// claims only that the result is determined by the path: the same path
/// gives the same URL, or is refused, every time.
#[verifier::external_body]
fn file_uri_of(path: &str) -> (uri: Option<String>)
    ensures
        text_of(uri) == file_uri(path@),
{
    match lsp_types::Url::from_file_path(path) {
        Ok(url) => Some(String::from(url)),
        Err(_) => None,
    }
}

/// Calls `Url::parse` and hands out the URL as text. The contract claims
/// only that the result is determined by the text that is parsed.
#[verifier::external_body]
fn parse_uri(text: &str) -> (uri: Option<String>)
    ensures
        text_of(uri) == parsed_uri(text@),
{
    match lsp_types::Url::parse(text) {
        Ok(url) => Some(String::from(url)),
        Err(_) => None,
    }
}

/// The URI that is used where a directory cannot be turned into one.
pub open spec fn fallback_uri() -> Seq<char> {
    "file:///tmp"@
}

/// The workspace URI, given what the conversions made of the directory:
/// the URL of the path where there is one, else the URL parsed from the
/// canonical path behind `file://`, else the fallback.
pub open spec fn chosen_uri(from_path: Option<Seq<char>>, from_text: Option<Seq<char>>) -> Seq<char> {
    match from_path {
        Some(uri) => uri,
        None => match from_text {
            Some(uri) => uri,
            None => fallback_uri(),
        },
    }
}

/// The workspace URI of the directory `current_dir`, whose canonical form
/// is `canonical_dir`.
pub open spec fn workspace_uri(current_dir: Seq<char>, canonical_dir: Seq<char>) -> Seq<char> {
    chosen_uri(file_uri(current_dir), parsed_uri("file://"@ + canonical_dir))
}

/// Picks the workspace URI among what the conversions made of the
/// directory.
pub fn choose_uri(from_path: Option<String>, from_text: Option<String>) -> (uri: String)
    ensures
        uri@ == chosen_uri(text_of(from_path), text_of(from_text)),
{
    match from_path {
        Some(uri) => uri,
        None => match from_text {
            Some(uri) => uri,
            None => String::from_str("file:///tmp"),
        },
    }
}

/// The workspace URI of the directory `current_dir`, whose canonical form
/// is `canonical_dir`. The canonical form is asked for only as text: the
/// host looks it up.
pub fn workspace_uri_of(current_dir: &str, canonical_dir: &str) -> (uri: String)
    ensures
        uri@ == workspace_uri(current_dir@, canonical_dir@),
{
    let from_path = file_uri_of(current_dir);
    if from_path.is_some() {
        return choose_uri(from_path, None);
    }
    let mut text = String::from_str("file://");
    text.append(canonical_dir);
    let from_text = parse_uri(text.as_str());
    choose_uri(from_path, from_text)
}

} // verus!
