//! URL parsing and percent-decoding, taken on trust from the `url` and
//! `percent-encoding` crates.
//!
//! Both calls compute pure functions of their input, so their results are
//! given names that the callers' contracts build on.

use vstd::prelude::*;

verus! {

/// The two pieces of a parsed URL that this crate reads.
pub struct UrlParts {
    pub scheme: String,
    pub serialized: String,
}

/// Whether the `url` crate accepts `s` as an absolute URL.
pub uninterp spec fn url_accepts(s: Seq<char>) -> bool;

/// The scheme the `url` crate reports for `s`, lower-cased by the parser.
pub uninterp spec fn url_scheme_of(s: Seq<char>) -> Seq<char>;

/// The canonical serialization the `url` crate gives `s` (for example a
/// trailing `/` added to a bare-host URL).
pub uninterp spec fn url_serial_of(s: Seq<char>) -> Seq<char>;

/// Relies on `url::Url::parse`, `Url::scheme` and `Url`'s `Display`
/// implementation: all three are functions of the input string alone.
#[verifier::external_body]
pub fn parse_url_parts(s: &str) -> (r: Option<UrlParts>)
    ensures
        r.is_some() == url_accepts(s@),
        r matches Some(p) ==> p.scheme@ == url_scheme_of(s@) && p.serialized@ == url_serial_of(
            s@,
        ),
{
    match url::Url::parse(s) {
        Ok(u) => Some(
            UrlParts { scheme: u.scheme().to_string(), serialized: u.to_string() },
        ),
        Err(_) => None,
    }
}

/// The percent-decoding of `s`, or `None` where the decoded bytes are not
/// valid UTF-8.
pub uninterp spec fn pct_decode_of(s: Seq<char>) -> Option<Seq<char>>;

/// Relies on `percent_encoding::percent_decode_str` followed by
/// `decode_utf8`: the decoded text is a function of the input alone.
#[verifier::external_body]
pub fn percent_decode_utf8(s: &str) -> (r: Option<String>)
    ensures
        r.deep_view() == pct_decode_of(s@),
{
    match percent_encoding::percent_decode_str(s).decode_utf8() {
        Ok(c) => Some(c.into_owned()),
        Err(_) => None,
    }
}

} // verus!
