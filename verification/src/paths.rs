//! File-system path inspection (`std::path::Path`), without touching the disk.

use vstd::prelude::*;

use crate::text::{chars_of, replace_all, replace_chars, string_of};

verus! {

/// `Path::file_name` of the path spelled `p`, as text.
pub uninterp spec fn file_name_of(p: Seq<char>) -> Option<Seq<char>>;

/// `Path::file_stem` of the path spelled `p`, as text.
pub uninterp spec fn file_stem_of(p: Seq<char>) -> Option<Seq<char>>;

/// `Path::extension` of the path spelled `p`, as text.
pub uninterp spec fn extension_of(p: Seq<char>) -> Option<Seq<char>>;

/// `Path::eq`: whether two spellings name the same path, component by component.
pub uninterp spec fn same_path(a: Seq<char>, b: Seq<char>) -> bool;

/// `Path::strip_prefix(root)` of `p`, as text (`None` when `root` is not a
/// prefix of `p`).
pub uninterp spec fn strip_prefix_of(p: Seq<char>, root: Seq<char>) -> Option<Seq<char>>;

/// The text of each of the components of the path spelled `p`.
pub uninterp spec fn components_of(p: Seq<char>) -> Seq<Seq<char>>;

/// `Path::parent` of the path spelled `p`, as text.
pub uninterp spec fn parent_of(p: Seq<char>) -> Option<Seq<char>>;

/// Calls `Path::parent` and converts the parent to a `String`.
#[verifier::external_body]
pub(crate) fn parent(p: &str) -> (r: Option<String>)
    ensures
        match r {
            Some(s) => parent_of(p@) == Some(s@),
            None => parent_of(p@) is None,
        },
{
    std::path::Path::new(p).parent().map(|dir| dir.to_string_lossy().to_string())
}

/// Calls `Path::file_name` and converts the name to a `String`.
#[verifier::external_body]
pub(crate) fn file_name(p: &str) -> (r: Option<String>)
    ensures
        match r {
            Some(s) => file_name_of(p@) == Some(s@),
            None => file_name_of(p@) is None,
        },
{
    std::path::Path::new(p).file_name().map(|name| name.to_string_lossy().to_string())
}

/// Calls `Path::file_stem` and converts the stem to a `String`.
#[verifier::external_body]
pub(crate) fn file_stem(p: &str) -> (r: Option<String>)
    ensures
        match r {
            Some(s) => file_stem_of(p@) == Some(s@),
            None => file_stem_of(p@) is None,
        },
{
    std::path::Path::new(p).file_stem().map(|stem| stem.to_string_lossy().to_string())
}

/// Calls `Path::extension` and converts it to a `String`.
#[verifier::external_body]
pub(crate) fn extension(p: &str) -> (r: Option<String>)
    ensures
        match r {
            Some(s) => extension_of(p@) == Some(s@),
            None => extension_of(p@) is None,
        },
{
    std::path::Path::new(p).extension().map(|ext| ext.to_string_lossy().to_string())
}

/// Calls `Path::eq` on the two paths. Equal spellings name the same path.
#[verifier::external_body]
pub(crate) fn paths_equal(a: &str, b: &str) -> (r: bool)
    ensures
        r == same_path(a@, b@),
        a@ == b@ ==> r,
{
    std::path::Path::new(a) == std::path::Path::new(b)
}

/// Calls `Path::strip_prefix` and converts the remainder to text.
#[verifier::external_body]
pub(crate) fn strip_prefix(p: &str, root: &str) -> (r: Option<String>)
    ensures
        match r {
            Some(s) => strip_prefix_of(p@, root@) == Some(s@),
            None => strip_prefix_of(p@, root@) is None,
        },
{
    std::path::Path::new(p).strip_prefix(root).ok().map(|rest| rest.to_string_lossy().to_string())
}

/// Calls `Path::components` and converts each component to text.
#[verifier::external_body]
pub(crate) fn components(p: &str) -> (r: Vec<String>)
    ensures
        crate::text::string_views(r@) == components_of(p@),
{
    std::path::Path::new(p).components().map(|c| c.as_os_str().to_string_lossy().to_string()).collect()
}

/// `std::path::MAIN_SEPARATOR`: the platform's separator of path components,
/// `/` on Unix and `\\` on Windows (as std documents). Which of the two it is
/// depends on the machine the crate is built for.
#[verifier::external_body]
fn main_separator() -> (c: char)
    ensures
        c == '/' || c == '\\',
{
    std::path::MAIN_SEPARATOR
}

/// The path written so that it can stand inside a TOML string: where the
/// separator is `\\` (Windows), every backslash is doubled, so that it is no
/// escape sequence; elsewhere the path as it is.
pub open spec fn toml_path_text(path: Seq<char>, sep: char) -> Seq<char> {
    if sep == '\\' {
        replace_all(path, seq!['\\'], seq!['\\', '\\'])
    } else {
        path
    }
}

/// `toml_path` for a platform whose path separator is `sep`.
pub fn toml_path_for(path: &str, sep: char) -> (r: String)
    ensures
        r@ == toml_path_text(path@, sep),
{
    if sep == '\\' {
        let pat: Vec<char> = vec!['\\'];
        let rep: Vec<char> = vec!['\\', '\\'];
        assert(pat@ =~= seq!['\\']);
        assert(rep@ =~= seq!['\\', '\\']);
        string_of(&replace_chars(&chars_of(path), &pat, &rep))
    } else {
        path.to_owned()
    }
}

/// A path as it can be written inside TOML on this platform: backslashes
/// doubled on Windows, the path as it is elsewhere.
pub fn toml_path(path: &str) -> (r: String)
    ensures
        r@ == toml_path_text(path@, '/') || r@ == toml_path_text(path@, '\\'),
{
    let sep = main_separator();
    toml_path_for(path, sep)
}

} // verus!
