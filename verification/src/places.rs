//! The user's well-known directories, as the `dirs` crate reports them.
//! What they are depends on the machine and its environment, so nothing is
//! promised of them beyond their type.

use vstd::prelude::*;

verus! {

/// The user's home directory from `dirs::home_dir`, as text; `None` when
/// `dirs` finds none or its path is not valid UTF-8. Nothing is claimed of
/// the value: it depends on the environment.
#[verifier::external_body]
pub(crate) fn home_dir() -> Option<String> {
    dirs::home_dir().and_then(|p| p.into_os_string().into_string().ok())
}

/// The user's cache directory from `dirs::cache_dir`, as text; `None` when
/// `dirs` finds none or its path is not valid UTF-8. Nothing is claimed of
/// the value: it depends on the environment.
#[verifier::external_body]
pub(crate) fn cache_dir() -> Option<String> {
    dirs::cache_dir().and_then(|p| p.into_os_string().into_string().ok())
}

/// The user's local data directory from `dirs::data_local_dir`, as text;
/// `None` when `dirs` finds none or its path is not valid UTF-8. Nothing is
/// claimed of the value: it depends on the environment.
#[verifier::external_body]
pub(crate) fn data_local_dir() -> Option<String> {
    dirs::data_local_dir().and_then(|p| p.into_os_string().into_string().ok())
}

} // verus!
