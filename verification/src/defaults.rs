//! Deciding whether this application is the host's default http handler.
//!
//! The host-specific query (registry value, LaunchServices handler, xdg
//! setting) happens outside; the comparison rules live here.

use vstd::prelude::*;
use crate::routing::OsKind;
use crate::text::{lower_seq, lower_string, push_char, str_eq};

verus! {

/// The desktop-entry name a Linux handler must equal: the application
/// identifier with hyphens replaced by underscores, plus `.desktop`.
pub open spec fn desktop_handler_spec(identifier: Seq<char>) -> Seq<char> {
    identifier.map_values(|c: char| if c == '-' {
        '_'
    } else {
        c
    }) + ".desktop"@
}

/// Renders the expected Linux desktop-entry handler name.
pub fn expected_desktop_handler(identifier: &str) -> (r: String)
    ensures
        r@ == desktop_handler_spec(identifier@),
{
    let ghost mapped = identifier@.map_values(
        |c: char|
            if c == '-' {
                '_'
            } else {
                c
            },
    );
    let n = identifier.unicode_len();
    let mut out = String::new();
    let mut i: usize = 0;
    assert(out@ =~= mapped.take(0));
    while i < n
        invariant
            n == identifier@.len(),
            0 <= i <= n,
            mapped == identifier@.map_values(
                |c: char|
                    if c == '-' {
                        '_'
                    } else {
                        c
                    },
            ),
            out@ == mapped.take(i as int),
        decreases n - i,
    {
        let c = identifier.get_char(i);
        let mapped_c = if c == '-' {
            '_'
        } else {
            c
        };
        push_char(&mut out, mapped_c);
        assert(mapped.take(i + 1) =~= mapped.take(i as int).push(mapped[i as int]));
        i = i + 1;
    }
    assert(mapped.take(n as int) =~= mapped);
    out.append(".desktop");
    out
}

/// Whether a reported http handler means "this application is the default":
/// on Windows the registered ProgID compared ASCII-case-insensitively, on
/// macOS the bundle identifier itself, on Linux the derived desktop-entry
/// name; unknown hosts never match.
pub open spec fn handler_matches_spec(
    os: OsKind,
    handler: Seq<char>,
    identifier: Seq<char>,
) -> bool {
    match os {
        OsKind::Windows => lower_seq(handler) == lower_seq("OpenWithBrowserURL"@),
        OsKind::Macos => handler == identifier,
        OsKind::Linux => handler == desktop_handler_spec(identifier),
        OsKind::Other => false,
    }
}

/// Decides whether the reported handler is this application.
pub fn handler_matches(os: OsKind, handler: &str, app_identifier: &str) -> (r: bool)
    ensures
        r == handler_matches_spec(os, handler@, app_identifier@),
{
    match os {
        OsKind::Windows => {
            let a = lower_string(handler);
            let b = lower_string("OpenWithBrowserURL");
            str_eq(a.as_str(), b.as_str())
        },
        OsKind::Macos => str_eq(handler, app_identifier),
        OsKind::Linux => {
            let expected = expected_desktop_handler(app_identifier);
            str_eq(handler, expected.as_str())
        },
        OsKind::Other => false,
    }
}

} // verus!
