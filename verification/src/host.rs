//! Host-environment queries: fresh identifiers, timestamps, and the set of
//! browsers installed on this machine.
//!
//! Every function here wraps a call whose result depends on the process,
//! clock or disk, so the contracts state only what holds of every outcome.

use vstd::prelude::*;

verus! {

#[verifier::external_type_specification]
#[verifier::external_body]
pub struct ExBrowser(crowser::browser::Browser);

/// Relies on `uuid::Uuid::new_v4` and its hyphenated `Display` form: a fresh
/// identifier always renders as 36 characters; the value itself is random.
#[verifier::external_body]
pub fn fresh_uuid() -> (r: String)
    ensures
        r@.len() == 36,
{
    uuid::Uuid::new_v4().to_string()
}

/// Relies on `chrono::Utc::now` and `DateTime::to_rfc3339`: an RFC 3339
/// timestamp is never empty; the value depends on the clock.
#[verifier::external_body]
pub fn rfc3339_now() -> (r: String)
    ensures
        r@.len() > 0,
{
    chrono::Utc::now().to_rfc3339()
}

/// Relies on `crowser::browser::get_all_existing_browsers`: which browsers
/// come back depends on what is installed here, so nothing is promised.
#[verifier::external_body]
pub fn existing_browsers() -> Vec<crowser::browser::Browser> {
    crowser::browser::get_all_existing_browsers()
}

/// Relies on the public `name` field of `crowser::browser::Browser`.
#[verifier::external_body]
pub fn browser_name(b: &crowser::browser::Browser) -> String {
    b.name.to_string()
}

/// Relies on `crowser::browser::get_browser_path`: the first path found for
/// the browser, depending on what is installed here.
#[verifier::external_body]
pub fn browser_path(b: &crowser::browser::Browser) -> Option<String> {
    crowser::browser::get_browser_path(b).map(|p| p.to_string_lossy().into_owned())
}

} // verus!
