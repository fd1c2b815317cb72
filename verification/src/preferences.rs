//! The user's persisted fallback choice: "always use this browser/profile".
//!
//! The store's file I/O lives outside this crate; here are the value types,
//! the in-memory state, and the rule that turns raw command input into a
//! fallback preference.

use vstd::prelude::*;

verus! {

/// A browser profile selection inside a fallback preference.
#[derive(Debug)]
pub struct ProfilePreference {
    pub label: Option<String>,
    pub directory: Option<String>,
}

/// The mathematical value of a `ProfilePreference`.
pub struct ProfilePreferenceV {
    pub label: Option<Seq<char>>,
    pub directory: Option<Seq<char>>,
}

impl View for ProfilePreference {
    type V = ProfilePreferenceV;

    open spec fn view(&self) -> ProfilePreferenceV {
        ProfilePreferenceV { label: self.label.deep_view(), directory: self.directory.deep_view() }
    }
}

impl DeepView for ProfilePreference {
    type V = ProfilePreferenceV;

    open spec fn deep_view(&self) -> ProfilePreferenceV {
        self@
    }
}

/// The persisted "always use X" choice.
#[derive(Debug)]
pub struct FallbackPreference {
    pub browser: String,
    pub profile: Option<ProfilePreference>,
}

/// The mathematical value of a `FallbackPreference`.
pub struct FallbackPreferenceV {
    pub browser: Seq<char>,
    pub profile: Option<ProfilePreferenceV>,
}

impl View for FallbackPreference {
    type V = FallbackPreferenceV;

    open spec fn view(&self) -> FallbackPreferenceV {
        FallbackPreferenceV { browser: self.browser@, profile: self.profile.deep_view() }
    }
}

impl DeepView for FallbackPreference {
    type V = FallbackPreferenceV;

    open spec fn deep_view(&self) -> FallbackPreferenceV {
        self@
    }
}

impl Clone for ProfilePreference {
    fn clone(&self) -> (r: Self)
        ensures
            r@ == self@,
    {
        ProfilePreference {
            label: match &self.label {
                Some(s) => Some(s.clone()),
                None => None,
            },
            directory: match &self.directory {
                Some(s) => Some(s.clone()),
                None => None,
            },
        }
    }
}

impl Clone for FallbackPreference {
    fn clone(&self) -> (r: Self)
        ensures
            r@ == self@,
    {
        FallbackPreference {
            browser: self.browser.clone(),
            profile: match &self.profile {
                Some(p) => Some(p.clone()),
                None => None,
            },
        }
    }
}

/// The whole preference document: at most one fallback.
#[derive(Debug)]
pub struct Preferences {
    pub fallback: Option<FallbackPreference>,
}

impl View for Preferences {
    type V = Option<FallbackPreferenceV>;

    open spec fn view(&self) -> Option<FallbackPreferenceV> {
        self.fallback.deep_view()
    }
}

impl Preferences {
    /// The configured fallback, if any.
    pub fn fallback(&self) -> (r: Option<FallbackPreference>)
        ensures
            r.deep_view() == self@,
    {
        match &self.fallback {
            Some(f) => Some(f.clone()),
            None => None,
        }
    }

    /// Replaces the fallback choice.
    pub fn set_fallback(&mut self, fallback: Option<FallbackPreference>)
        ensures
            final(self)@ == fallback.deep_view(),
    {
        self.fallback = fallback;
    }
}

impl Default for Preferences {
    fn default() -> (r: Self)
        ensures
            r@ == Option::<FallbackPreferenceV>::None,
    {
        Preferences { fallback: None }
    }
}

/// What `get_preferences` hands to callers.
#[derive(Debug)]
pub struct PreferencesSnapshot {
    pub fallback: Option<FallbackPreference>,
}

/// Raw profile input from a caller setting the fallback.
#[derive(Debug)]
pub struct ProfileSelectionInput {
    pub label: Option<String>,
    pub directory: Option<String>,
}

/// The fallback that a `set_fallback_browser` request denotes: a browser with
/// a non-empty name keeps its profile selection; anything else clears the
/// fallback.
pub open spec fn fallback_from_input_spec(
    browser: Option<Seq<char>>,
    profile: Option<ProfilePreferenceV>,
) -> Option<FallbackPreferenceV> {
    match browser {
        Some(name) => if name.len() > 0 {
            Some(FallbackPreferenceV { browser: name, profile })
        } else {
            None
        },
        None => None,
    }
}

/// Turns raw command input into the fallback to store.
pub fn fallback_from_input(browser: Option<String>, profile: Option<ProfileSelectionInput>) -> (r:
    Option<FallbackPreference>)
    ensures
        r.deep_view() == fallback_from_input_spec(
            browser.deep_view(),
            match profile {
                Some(p) => Some(
                    ProfilePreferenceV {
                        label: p.label.deep_view(),
                        directory: p.directory.deep_view(),
                    },
                ),
                None => None,
            },
        ),
{
    match browser {
        Some(name) => {
            if name.as_str().unicode_len() > 0 {
                Some(
                    FallbackPreference {
                        browser: name,
                        profile: match profile {
                            Some(p) => Some(
                                ProfilePreference { label: p.label, directory: p.directory },
                            ),
                            None => None,
                        },
                    },
                )
            } else {
                None
            }
        },
        None => None,
    }
}

} // verus!
