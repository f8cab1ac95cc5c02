//! Calls into `url`, `pathdiff` and `std::path`, with what this library
//! relies on of each.
use vstd::prelude::*;

verus! {

/// The `application/x-www-form-urlencoded` form of the UTF-8 bytes of a
/// text.
pub uninterp spec fn form_encoded(s: Seq<char>) -> Seq<char>;

/// The decoded name of the first name/value pair of a form-encoded text,
/// if it holds one.
pub uninterp spec fn form_first_name(s: Seq<char>) -> Option<Seq<char>>;

/// The path that leads from `base` to `path`.
pub uninterp spec fn path_diff(path: Seq<char>, base: Seq<char>) -> Option<Seq<char>>;

/// `rel` joined onto `dir`.
pub uninterp spec fn joined_path(dir: Seq<char>, rel: Seq<char>) -> Seq<char>;

/// Relies on `url::form_urlencoded::byte_serialize`: the form-encoding of
/// the bytes of `s`, which depends on `s` alone.
#[verifier::external_body]
pub(crate) fn form_encode(s: &str) -> (r: String)
    ensures
        r@ == form_encoded(s@),
{
    url::form_urlencoded::byte_serialize(s.as_bytes()).collect()
}

/// Relies on `url::form_urlencoded::parse`: the decoded name of the first
/// pair that it yields, which depends on `s` alone.
#[verifier::external_body]
pub(crate) fn form_decode_first_name(s: &str) -> (r: Option<String>)
    ensures
        match r {
            Some(k) => form_first_name(s@) == Some(k@),
            None => form_first_name(s@) is None,
        },
{
    match url::form_urlencoded::parse(s.as_bytes()).next() {
        Some((name, _)) => Some(name.into_owned()),
        None => None,
    }
}

/// Relies on `pathdiff::diff_paths`: the relative path from `base` to
/// `path`, which depends on the two texts alone.
#[verifier::external_body]
pub(crate) fn diff_paths(path: &str, base: &str) -> (r: Option<String>)
    ensures
        match r {
            Some(p) => path_diff(path@, base@) == Some(p@),
            None => path_diff(path@, base@) is None,
        },
{
    match pathdiff::diff_paths(path, base) {
        Some(p) => Some(p.to_string_lossy().into_owned()),
        None => None,
    }
}

/// Relies on `std::path::Path::join`: `rel` appended to `dir` as a path,
/// which depends on the two texts alone.
#[verifier::external_body]
pub(crate) fn join_path(dir: &str, rel: &str) -> (r: String)
    ensures
        r@ == joined_path(dir@, rel@),
{
    std::path::Path::new(dir).join(rel).to_string_lossy().into_owned()
}

} // verus!
