//! Filesystem path prefixes.

use vstd::prelude::*;

verus! {

/// Whether `base` is a leading run of whole components of `path`, as
/// `std::path::Path::starts_with` decides it.
pub uninterp spec fn path_prefix(path: Seq<char>, base: Seq<char>) -> bool;

/// Calls `std::path::Path::starts_with`, which compares whole path
/// components (so `/usr/lib` starts with `/usr` but `/usrx` does not). The
/// contract only names the answer: it is a function of the two strings.
#[verifier::external_body]
pub(crate) fn path_starts_with(path: &str, base: &str) -> (r: bool)
    ensures
        r == path_prefix(path@, base@),
{
    std::path::Path::new(path).starts_with(base)
}

} // verus!

verus! {

/// The extension of the last component of a path, as
/// `std::path::Path::extension` finds it (converted losslessly to text),
/// or `None` where it finds none or it is not valid UTF-8.
pub uninterp spec fn extension_of(path: Seq<char>) -> Option<Seq<char>>;

/// Calls `std::path::Path::extension`, then `OsStr::to_str`. The contract
/// only names the answer, a function of the path text; the rules by which
/// std splits off an extension (the text after the last `.` of the file
/// name, none for names such as `.bashrc`) are std's and are not restated.
#[verifier::external_body]
pub(crate) fn path_extension(path: &str) -> (r: Option<String>)
    ensures
        match r {
            Some(e) => extension_of(path@) == Some(e@),
            None => extension_of(path@) is None,
        },
{
    match std::path::Path::new(path).extension() {
        Some(e) => match e.to_str() {
            Some(s) => Some(s.to_string()),
            None => None,
        },
        None => None,
    }
}

/// The last component of a path as text, as `std::path::Path::file_name`
/// and `OsStr::to_string_lossy` give it, or the empty text where there is
/// none.
pub uninterp spec fn file_name_of(path: Seq<char>) -> Seq<char>;

/// Calls `std::path::Path::file_name` and `OsStr::to_string_lossy`, with
/// the empty text where there is no file name. The contract only names the
/// answer, a function of the path text.
#[verifier::external_body]
pub(crate) fn path_file_name(path: &str) -> (r: String)
    ensures
        r@ == file_name_of(path@),
{
    match std::path::Path::new(path).file_name() {
        Some(n) => n.to_string_lossy().to_string(),
        None => String::new(),
    }
}

/// The path that `std::path::Path::join` makes of a base and a further
/// path (the further path alone where it is absolute).
pub uninterp spec fn joined_path(base: Seq<char>, rest: Seq<char>) -> Seq<char>;

/// Calls `std::path::Path::join` and converts the result to text with
/// `to_string_lossy`. The contract only names the answer, a function of
/// the two texts.
#[verifier::external_body]
pub(crate) fn path_join(base: &str, rest: &str) -> (r: String)
    ensures
        r@ == joined_path(base@, rest@),
{
    std::path::Path::new(base).join(rest).to_string_lossy().to_string()
}

} // verus!

verus! {

/// Whether two path texts name the same path component by component, as
/// `==` on `std::path::Path` decides it.
pub uninterp spec fn same_path(a: Seq<char>, b: Seq<char>) -> bool;

/// Compares two paths with `==` on `std::path::Path`, which compares
/// components (so `/bin/app` and `/bin//app/` are equal). The contract
/// names the answer, a function of the two texts, and states the one fact
/// that `Path`'s `Eq` implementation promises of it: identical texts name
/// the same path.
#[verifier::external_body]
pub(crate) fn paths_equal(a: &str, b: &str) -> (r: bool)
    ensures
        r == same_path(a@, b@),
        a@ == b@ ==> r,
{
    std::path::Path::new(a) == std::path::Path::new(b)
}

} // verus!
