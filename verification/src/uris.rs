//! Document addresses (`Url` of the `url` crate, as `tower_lsp` offers it) and paths.
//!
//! Both are carried without looking inside; what the library needs to know of them is
//! named here. What an address has to do with a path, and where a path divides, is that of
//! the platform for which the crate is built, as `PathBuf` itself is.

use std::path::PathBuf;
use tower_lsp::lsp_types::Url;
use vstd::prelude::*;
use vstd::utf8::encode_utf8;

use crate::text::{before_first, byte_len, opt_text};

verus! {

/// `url::Url`: a parsed address.
#[verifier::external_type_specification]
#[verifier::external_body]
pub struct ExUrl(tower_lsp::lsp_types::Url);

/// `std::path::PathBuf`: a path of the platform.
#[verifier::external_type_specification]
#[verifier::external_body]
pub struct ExPathBuf(std::path::PathBuf);

/// The address that `Url::parse` reads from a text, where it is one.
pub uninterp spec fn url_parsed(text: Seq<char>) -> Option<Url>;

/// The serialization of an address, as `Url::as_str` gives it.
pub uninterp spec fn url_text(uri: Url) -> Seq<char>;

/// The path of an address, as `Url::path` gives it: percent-encoded, without query.
pub uninterp spec fn url_path(uri: Url) -> Seq<char>;

/// The address with another path, as `Url::set_path` leaves it.
pub uninterp spec fn url_with_path(uri: Url, path: Seq<char>) -> Url;

/// The address without query, as `Url::set_query` leaves it.
pub uninterp spec fn url_without_query(uri: Url) -> Url;

/// The address without fragment, as `Url::set_fragment` leaves it.
pub uninterp spec fn url_without_fragment(uri: Url) -> Url;

/// The path made of a text, as `PathBuf::from` makes it.
pub uninterp spec fn path_of(text: Seq<char>) -> PathBuf;

/// The path of the file for which an address stands, as `Url::to_file_path` gives it.
pub uninterp spec fn url_file_path(uri: Url) -> Option<PathBuf>;

/// The address of a file, as `Url::from_file_path` gives it.
pub uninterp spec fn file_path_url(path: PathBuf) -> Option<Url>;

/// The path without its last component, as `Path::parent` gives it.
pub uninterp spec fn path_parent(path: PathBuf) -> Option<PathBuf>;

/// The last component of a path without its extension, as `Path::file_stem` gives it, where
/// it is text.
pub uninterp spec fn path_stem(path: PathBuf) -> Option<Seq<char>>;

/// A path extended by a name, as `Path::join` extends it.
pub uninterp spec fn path_joined(directory: PathBuf, name: Seq<char>) -> PathBuf;

/// A path as text, as `Path::to_string_lossy` gives it.
pub uninterp spec fn path_text(path: PathBuf) -> Seq<char>;

/// A path as text for a reader, as `Path::display` writes it.
pub uninterp spec fn path_shown(path: PathBuf) -> Seq<char>;

/// The scheme of an address: what stands before the first colon of its serialization.
pub open spec fn url_scheme(uri: Url) -> Seq<char> {
    before_first(url_text(uri), ':')
}

/// Calls `Url::parse`: whether it succeeds, and the address then, depend on the text alone.
#[verifier::external_body]
pub(crate) fn parse_url(text: &str) -> (r: Option<Url>)
    ensures
        r == url_parsed(text@),
{
    Url::parse(text).ok()
}

/// Calls `Url::as_str`, which is also what `Display` writes of an address.
#[verifier::external_body]
pub(crate) fn text_of_url(uri: &Url) -> (r: &str)
    ensures
        r@ == url_text(*uri),
{
    uri.as_str()
}

/// Calls `Url::scheme`: the part of the serialization before its first colon.
#[verifier::external_body]
pub(crate) fn scheme_of_url(uri: &Url) -> (r: &str)
    ensures
        r@ == url_scheme(*uri),
{
    uri.scheme()
}

/// Calls `Url::path`: the text depends on the address alone.
#[verifier::external_body]
pub(crate) fn path_of_url(uri: &Url) -> (r: &str)
    ensures
        r@ == url_path(*uri),
{
    uri.path()
}

/// Calls `Url::clone`: the same address.
#[verifier::external_body]
pub(crate) fn copy_url(uri: &Url) -> (r: Url)
    ensures
        r == *uri,
{
    uri.clone()
}

/// The address with this path stays within the four gigabytes that an address can have:
/// percent-encoding makes three bytes of one at most.
pub open spec fn path_fits(uri: Url, path: Seq<char>) -> bool {
    byte_len(url_text(uri)) + 3 * byte_len(path) + 16 <= u32::MAX
}

/// Addresses and paths of up to a gigabyte fit.
pub proof fn lemma_ordinary_addresses_fit(uri: Url, path: Seq<char>)
    requires
        encode_utf8(url_text(uri)).len() <= 1_000_000_000,
        encode_utf8(path).len() <= 1_000_000_000,
    ensures
        path_fits(uri, path),
{
}

/// Calls `Url::set_path`, which panics on an address of more than four gigabytes. The
/// new address depends on the old one and on the path alone; the scheme stays.
#[verifier::external_body]
pub(crate) fn set_url_path(uri: &mut Url, path: &str)
    requires
        path_fits(*old(uri), path@),
    ensures
        *final(uri) == url_with_path(*old(uri), path@),
        url_scheme(*final(uri)) == url_scheme(*old(uri)),
{
    uri.set_path(path)
}

/// Calls `Url::set_query` with `None`. The new address depends on the old one alone; the
/// scheme stays.
#[verifier::external_body]
pub(crate) fn clear_url_query(uri: &mut Url)
    ensures
        *final(uri) == url_without_query(*old(uri)),
        url_scheme(*final(uri)) == url_scheme(*old(uri)),
{
    uri.set_query(None)
}

/// Calls `Url::set_fragment` with `None`. The new address depends on the old one alone; the
/// scheme stays.
#[verifier::external_body]
pub(crate) fn clear_url_fragment(uri: &mut Url)
    ensures
        *final(uri) == url_without_fragment(*old(uri)),
        url_scheme(*final(uri)) == url_scheme(*old(uri)),
{
    uri.set_fragment(None)
}

/// Calls `Url::to_file_path`: whether the address stands for a file, and the path then,
/// depend on the address alone, as long as there is memory for the path. An address stands
/// for a file only where its own path starts with a slash.
#[verifier::external_body]
pub(crate) fn file_path_of_url(uri: &Url) -> (r: Option<PathBuf>)
    ensures
        r == url_file_path(*uri),
        r is Some ==> url_path(*uri).len() > 0 && url_path(*uri)[0] == '/',
{
    uri.to_file_path().ok()
}

/// Calls `Url::from_file_path`: whether the path has an address, and the address then, depend
/// on the path alone. The address has the scheme `file`.
#[verifier::external_body]
pub(crate) fn url_of_file_path(path: &PathBuf) -> (r: Option<Url>)
    ensures
        r == file_path_url(*path),
        r matches Some(uri) ==> url_scheme(uri) == "file"@,
{
    Url::from_file_path(path).ok()
}

/// Calls `PathBuf::from` on a text: the path depends on the text alone.
#[verifier::external_body]
pub(crate) fn make_path(text: &str) -> (r: PathBuf)
    ensures
        r == path_of(text@),
{
    PathBuf::from(text)
}

/// Calls `Path::parent`: whether there is a parent, and which, depends on the path alone.
#[verifier::external_body]
pub(crate) fn parent_of(path: &PathBuf) -> (r: Option<PathBuf>)
    ensures
        r == path_parent(*path),
{
    path.parent().map(|parent| parent.to_path_buf())
}

/// Calls `Path::file_stem` and hands the stem out as text, where it is text: whether there is
/// one, and which, depends on the path alone.
#[verifier::external_body]
pub(crate) fn stem_of(path: &PathBuf) -> (r: Option<String>)
    ensures
        opt_text(r) == path_stem(*path),
{
    path.file_stem().and_then(|stem| stem.to_str()).map(|stem| stem.to_string())
}

/// The directory and the name are ones that joining puts in a row as they are: the directory
/// has no verbatim prefix, and the name has neither a root nor a prefix of its own.
pub open spec fn joins_plainly(directory: Seq<char>, name: Seq<char>) -> bool {
    &&& !"\\\\?"@.is_prefix_of(directory)
    &&& name.len() > 0
    &&& name[0] != '/'
    &&& name[0] != '\\'
    &&& !name.contains(':')
}

/// The text is the directory and the name in a row, with at most one separator in between.
pub open spec fn in_a_row(text: Seq<char>, directory: Seq<char>, name: Seq<char>) -> bool {
    ||| text == directory + name
    ||| text == directory + seq!['/'] + name
    ||| text == directory + seq!['\\'] + name
}

/// The text ends with `tail`, which is some end of the name without a separator in it and
/// more than a `.` or a `..`.
pub open spec fn keeps_tail(text: Seq<char>, name: Seq<char>, tail: Seq<char>) -> bool {
    tail.is_suffix_of(name) && tail.len() > 2 && !tail.contains('/') && !tail.contains('\\')
        ==> tail.is_suffix_of(text)
}

/// What is known of the path that a directory and a name make: it ends as the name does, and
/// where they join plainly it is the two in a row. Which separator is put in between is that
/// of the platform.
pub open spec fn is_joined(path: PathBuf, directory: PathBuf, name: Seq<char>) -> bool {
    &&& forall|tail: Seq<char>| #[trigger] keeps_tail(path_text(path), name, tail)
    &&& joins_plainly(path_text(directory), name) ==> in_a_row(
        path_text(path),
        path_text(directory),
        name,
    )
}

/// Calls `Path::join`, which extends the directory by the name, with a separator of the
/// platform in between where one is needed. A name that is absolute or has a prefix
/// replaces the directory, one that has only a root all but its prefix, and a directory with
/// a verbatim prefix is normalized; in each of these cases too the path ends as the name
/// does. The path depends on the directory and the name alone.
#[verifier::external_body]
pub(crate) fn join_path(directory: &PathBuf, name: &str) -> (r: PathBuf)
    ensures
        r == path_joined(*directory, name@),
        is_joined(r, *directory, name@),
{
    directory.join(name)
}

/// Calls `Path::to_string_lossy`: the text depends on the path alone.
#[verifier::external_body]
pub(crate) fn text_of_path(path: &PathBuf) -> (r: String)
    ensures
        r@ == path_text(*path),
{
    path.to_string_lossy().into_owned()
}

/// Calls `Path::display` and writes it to a string: the text depends on the path alone.
#[verifier::external_body]
pub(crate) fn show_path(path: &PathBuf) -> (r: String)
    ensures
        r@ == path_shown(*path),
{
    path.display().to_string()
}

} // verus!
