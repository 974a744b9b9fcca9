//! What configuration reads from the process environment.

use vstd::prelude::*;

verus! {

/// `directories::BaseDirs::new()` and `home_dir()`: the user's home directory, when
/// one can be determined. Nothing is stated of the value.
#[verifier::external_body]
pub(crate) fn home_dir() -> (r: Option<String>) {
    directories::BaseDirs::new().map(|dirs| dirs.home_dir().to_string_lossy().to_string())
}

/// Text that `shellexpand` leaves to itself: no `$` in it.
pub open spec fn without_vars(raw: Seq<char>) -> bool {
    !raw.contains('$')
}

/// Text that starts with `~`, which `shellexpand` may replace by the home directory.
pub open spec fn starts_with_tilde(raw: Seq<char>) -> bool {
    raw.len() > 0 && raw[0] == '~'
}

/// `shellexpand::full`: `~` and `$VAR` expansion against the environment; `None`
/// when a variable is missing. As the crate's source shows, text without `$`
/// is never refused, and text that has no `$` and does not start with `~` comes
/// back as it is. Nothing is stated of the value of any other text, which
/// depends on the environment.
#[verifier::external_body]
pub(crate) fn shell_expand(raw: &str) -> (r: Option<String>)
    ensures
        match r {
            Some(s) => without_vars(raw@) && !starts_with_tilde(raw@) ==> s@ == raw@,
            None => !without_vars(raw@),
        },
{
    shellexpand::full(raw).ok().map(|s| s.into_owned())
}

/// `Path::join` of `base` and `rel`, as text.
pub uninterp spec fn joined_path(base: Seq<char>, rel: Seq<char>) -> Seq<char>;

/// Calls `Path::join` and converts the result to text.
#[verifier::external_body]
pub(crate) fn join_path(base: &str, rel: &str) -> (r: String)
    ensures
        r@ == joined_path(base@, rel@),
{
    std::path::Path::new(base).join(rel).to_string_lossy().to_string()
}

} // verus!
