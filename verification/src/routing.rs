//! The routing service: the state machine that receives incoming links,
//! reconciles them with the persisted fallback preference, commits launch
//! decisions to a bounded history, and shapes the launch command line.
//!
//! The service owns `{active, history}` as plain state; callers put it
//! behind whatever lock and event plumbing they need.  Everything the
//! service decides is specified here; spawning the child process and
//! publishing events is the caller's part.

use vstd::prelude::*;
use crate::host::{browser_name, browser_path, existing_browsers, fresh_uuid, rfc3339_now};
use crate::preferences::{FallbackPreference, FallbackPreferenceV};
use crate::text::{
    lower_char, starts_with_spec, starts_with_sub, str_eq, trim_chars, trim_spec, push_char,
};
use crate::weburl::{parse_url_parts, url_accepts};

verus! {

/// The operating-system family a path or argument convention is built for.
#[derive(Debug, Clone, Copy, PartialEq, Eq, Structural)]
pub enum OsKind {
    Windows,
    Macos,
    Linux,
    Other,
}

/// A recommended browser attached to an incoming link.
#[derive(Debug)]
pub struct BrowserDescriptor {
    pub name: String,
    pub profile_label: Option<String>,
    pub profile_directory: Option<String>,
}

/// The mathematical value of a `BrowserDescriptor`.
pub struct BrowserDescriptorV {
    pub name: Seq<char>,
    pub profile_label: Option<Seq<char>>,
    pub profile_directory: Option<Seq<char>>,
}

impl View for BrowserDescriptor {
    type V = BrowserDescriptorV;

    open spec fn view(&self) -> BrowserDescriptorV {
        BrowserDescriptorV {
            name: self.name@,
            profile_label: self.profile_label.deep_view(),
            profile_directory: self.profile_directory.deep_view(),
        }
    }
}

impl DeepView for BrowserDescriptor {
    type V = BrowserDescriptorV;

    open spec fn deep_view(&self) -> BrowserDescriptorV {
        self@
    }
}

/// A URL presented to the application for routing.
#[derive(Debug)]
pub struct IncomingLink {
    pub id: String,
    pub url: String,
    pub source_app: String,
    pub source_context: Option<String>,
    pub contact_name: Option<String>,
    pub preview: Option<String>,
    pub recommended_browser: Option<BrowserDescriptor>,
    pub arrived_at: Option<String>,
}

/// The mathematical value of an `IncomingLink`.
pub struct IncomingLinkV {
    pub id: Seq<char>,
    pub url: Seq<char>,
    pub source_app: Seq<char>,
    pub source_context: Option<Seq<char>>,
    pub contact_name: Option<Seq<char>>,
    pub preview: Option<Seq<char>>,
    pub recommended_browser: Option<BrowserDescriptorV>,
    pub arrived_at: Option<Seq<char>>,
}

impl View for IncomingLink {
    type V = IncomingLinkV;

    open spec fn view(&self) -> IncomingLinkV {
        IncomingLinkV {
            id: self.id@,
            url: self.url@,
            source_app: self.source_app@,
            source_context: self.source_context.deep_view(),
            contact_name: self.contact_name.deep_view(),
            preview: self.preview.deep_view(),
            recommended_browser: self.recommended_browser.deep_view(),
            arrived_at: self.arrived_at.deep_view(),
        }
    }
}

impl DeepView for IncomingLink {
    type V = IncomingLinkV;

    open spec fn deep_view(&self) -> IncomingLinkV {
        self@
    }
}

/// Whether a decision is remembered or applied once.
#[derive(Debug, Clone, Copy, PartialEq, Eq, Structural)]
pub enum PersistChoice {
    JustOnce,
    Always,
}

impl Default for PersistChoice {
    fn default() -> (r: Self)
        ensures
            r == PersistChoice::JustOnce,
    {
        PersistChoice::JustOnce
    }
}

/// The resolved choice of browser/profile/persistence for one link.
#[derive(Debug)]
pub struct LaunchDecision {
    pub id: String,
    pub url: String,
    pub browser: String,
    pub profile_label: Option<String>,
    pub profile_directory: Option<String>,
    pub persist: PersistChoice,
    pub decided_at: Option<String>,
    pub source_app: String,
    pub contact_name: Option<String>,
}

/// The mathematical value of a `LaunchDecision`.
pub struct LaunchDecisionV {
    pub id: Seq<char>,
    pub url: Seq<char>,
    pub browser: Seq<char>,
    pub profile_label: Option<Seq<char>>,
    pub profile_directory: Option<Seq<char>>,
    pub persist: PersistChoice,
    pub decided_at: Option<Seq<char>>,
    pub source_app: Seq<char>,
    pub contact_name: Option<Seq<char>>,
}

impl View for LaunchDecision {
    type V = LaunchDecisionV;

    open spec fn view(&self) -> LaunchDecisionV {
        LaunchDecisionV {
            id: self.id@,
            url: self.url@,
            browser: self.browser@,
            profile_label: self.profile_label.deep_view(),
            profile_directory: self.profile_directory.deep_view(),
            persist: self.persist,
            decided_at: self.decided_at.deep_view(),
            source_app: self.source_app@,
            contact_name: self.contact_name.deep_view(),
        }
    }
}

impl DeepView for LaunchDecision {
    type V = LaunchDecisionV;

    open spec fn deep_view(&self) -> LaunchDecisionV {
        self@
    }
}

/// Clones an optional string, keeping its value.
fn clone_opt_string(o: &Option<String>) -> (r: Option<String>)
    ensures
        r.deep_view() == o.deep_view(),
{
    match o {
        Some(s) => Some(s.clone()),
        None => None,
    }
}

impl Clone for BrowserDescriptor {
    fn clone(&self) -> (r: Self)
        ensures
            r@ == self@,
    {
        BrowserDescriptor {
            name: self.name.clone(),
            profile_label: clone_opt_string(&self.profile_label),
            profile_directory: clone_opt_string(&self.profile_directory),
        }
    }
}

impl Clone for IncomingLink {
    fn clone(&self) -> (r: Self)
        ensures
            r@ == self@,
    {
        IncomingLink {
            id: self.id.clone(),
            url: self.url.clone(),
            source_app: self.source_app.clone(),
            source_context: clone_opt_string(&self.source_context),
            contact_name: clone_opt_string(&self.contact_name),
            preview: clone_opt_string(&self.preview),
            recommended_browser: match &self.recommended_browser {
                Some(b) => Some(b.clone()),
                None => None,
            },
            arrived_at: clone_opt_string(&self.arrived_at),
        }
    }
}

impl Clone for LaunchDecision {
    fn clone(&self) -> (r: Self)
        ensures
            r@ == self@,
    {
        LaunchDecision {
            id: self.id.clone(),
            url: self.url.clone(),
            browser: self.browser.clone(),
            profile_label: clone_opt_string(&self.profile_label),
            profile_directory: clone_opt_string(&self.profile_directory),
            persist: self.persist,
            decided_at: clone_opt_string(&self.decided_at),
            source_app: self.source_app.clone(),
            contact_name: clone_opt_string(&self.contact_name),
        }
    }
}

/// A read-only projection of the service state.
#[derive(Debug)]
pub struct RoutingSnapshot {
    pub active: Option<IncomingLink>,
    pub history: Vec<LaunchDecision>,
}

/// A status event for one decision's launch.
#[derive(Debug)]
pub struct RoutingStatus {
    pub id: String,
    pub browser: String,
    pub status: LaunchState,
}

/// Where a launch stands; `Launched` and `Failed` are terminal.
#[derive(Debug, Clone, Copy, PartialEq, Eq, Structural)]
pub enum LaunchState {
    Launching,
    Launched,
    Failed,
}

/// An error event for one decision's launch.
#[derive(Debug)]
pub struct RoutingError {
    pub id: String,
    pub browser: String,
    pub message: String,
}

/// Optional overrides for a synthetic incoming link.
#[derive(Debug)]
pub struct SimulatedLinkPayload {
    pub url: Option<String>,
    pub source_app: Option<String>,
    pub contact_name: Option<String>,
    pub source_context: Option<String>,
    pub preview: Option<String>,
}

impl Default for SimulatedLinkPayload {
    fn default() -> (r: Self)
        ensures
            r.url is None,
            r.source_app is None,
            r.contact_name is None,
            r.source_context is None,
            r.preview is None,
    {
        SimulatedLinkPayload {
            url: None,
            source_app: None,
            contact_name: None,
            source_context: None,
            preview: None,
        }
    }
}

/// `s` with every leading repetition of `pat` removed.
pub open spec fn strip_rep_prefix(s: Seq<char>, pat: Seq<char>) -> Seq<char>
    decreases s.len(),
{
    if pat.len() > 0 && starts_with_spec(s, pat) {
        strip_rep_prefix(s.subrange(pat.len() as int, s.len() as int), pat)
    } else {
        s
    }
}

/// The normalized form of a URL-ish string: trimmed; kept as-is when the
/// parser accepts it; otherwise retried under an `https://` prefix after
/// dropping any `https://`/`http://` prefixes; otherwise the trimmed text
/// unchanged.  Empty input normalizes to the empty string.
pub open spec fn normalize_url_spec(s: Seq<char>) -> Seq<char> {
    let t = trim_spec(s);
    if t.len() == 0 {
        Seq::empty()
    } else if url_accepts(t) {
        t
    } else {
        let candidate = "https://"@ + strip_rep_prefix(
            strip_rep_prefix(t, "https://"@),
            "http://"@,
        );
        if url_accepts(candidate) {
            candidate
        } else {
            t
        }
    }
}

/// Removes every leading repetition of `pat` from `s`.
fn strip_prefix_repeated(s: String, pat: &str) -> (r: String)
    requires
        pat@.len() > 0,
    ensures
        r@ == strip_rep_prefix(s@, pat@),
    decreases s@.len(),
{
    let p = pat.unicode_len();
    if starts_with_sub(s.as_str(), pat) {
        let rest = s.as_str().substring_char(p, s.as_str().unicode_len()).to_owned();
        assert(rest@ =~= s@.subrange(pat@.len() as int, s@.len() as int));
        strip_prefix_repeated(rest, pat)
    } else {
        s
    }
}

/// Normalizes a URL-ish string as `normalize_url_spec` describes.
pub fn normalize_url(input: &str) -> (r: String)
    ensures
        r@ == normalize_url_spec(input@),
{
    proof {
        reveal_strlit("https://");
        reveal_strlit("http://");
    }
    let trimmed = trim_chars(input);
    if trimmed.as_str().unicode_len() == 0 {
        let empty = String::new();
        assert(empty@ =~= Seq::<char>::empty());
        return empty;
    }
    if parse_url_parts(trimmed.as_str()).is_some() {
        return trimmed;
    }
    let stripped = strip_prefix_repeated(
        strip_prefix_repeated(trimmed.clone(), "https://"),
        "http://",
    );
    let mut candidate = String::new();
    candidate.append("https://");
    candidate.append(stripped.as_str());
    if parse_url_parts(candidate.as_str()).is_some() {
        candidate
    } else {
        trimmed
    }
}

/// An ASCII letter or digit.
pub open spec fn is_alnum(c: char) -> bool {
    ('a' <= c && c <= 'z') || ('A' <= c && c <= 'Z') || ('0' <= c && c <= '9')
}

/// The comparison key of a browser name: ASCII alphanumerics only,
/// lower-cased, so "Google Chrome", "google-chrome" and "GoogleChrome"
/// compare equal.
pub open spec fn browser_key_spec(s: Seq<char>) -> Seq<char>
    decreases s.len(),
{
    if s.len() == 0 {
        Seq::empty()
    } else {
        let rest = browser_key_spec(s.drop_last());
        if is_alnum(s.last()) {
            rest.push(lower_char(s.last()))
        } else {
            rest
        }
    }
}

/// Builds the comparison key of a browser name.
pub fn normalize_browser_key(value: &str) -> (r: String)
    ensures
        r@ == browser_key_spec(value@),
{
    let n = value.unicode_len();
    let mut out = String::new();
    let mut i: usize = 0;
    assert(out@ =~= browser_key_spec(value@.take(0)));
    while i < n
        invariant
            n == value@.len(),
            0 <= i <= n,
            out@ == browser_key_spec(value@.take(i as int)),
        decreases n - i,
    {
        let c = value.get_char(i);
        proof {
            assert(value@.take(i + 1).drop_last() =~= value@.take(i as int));
            assert(value@.take(i + 1).last() == value@[i as int]);
        }
        let keep = ('a' <= c && c <= 'z') || ('A' <= c && c <= 'Z') || ('0' <= c && c <= '9');
        if keep {
            let lowered = if 'A' <= c && c <= 'Z' {
                ((c as u8) + 32) as char
            } else {
                c
            };
            push_char(&mut out, lowered);
        }
        i = i + 1;
    }
    proof {
        assert(value@.take(n as int) =~= value@);
    }
    out
}

/// Browser keys that take Chromium's `--profile-directory=` switch.
pub open spec fn chromium_family(k: Seq<char>) -> bool {
    ||| k == "chrome"@
    ||| k == "chromebeta"@
    ||| k == "chromedev"@
    ||| k == "chromecanary"@
    ||| k == "chromium"@
    ||| k == "edge"@
    ||| k == "edgebeta"@
    ||| k == "edgedev"@
    ||| k == "edgecanary"@
    ||| k == "brave"@
    ||| k == "vivaldi"@
    ||| k == "thorium"@
}

/// Browser keys that take Firefox's `-P` switch.
pub open spec fn firefox_family(k: Seq<char>) -> bool {
    k == "firefox"@ || k == "firefoxbeta"@ || k == "waterfox"@
}

/// The profile-selection arguments for a browser: Chromium family gets
/// `--profile-directory=<profile>`, Firefox family gets `-P <profile>`,
/// unrecognized families and blank profiles get nothing.
pub open spec fn add_profile_args_spec(browser: Seq<char>, profile: Seq<char>) -> Seq<Seq<char>> {
    let t = trim_spec(profile);
    if t.len() == 0 {
        Seq::empty()
    } else {
        let k = browser_key_spec(browser);
        if chromium_family(k) {
            seq!["--profile-directory="@ + t]
        } else if firefox_family(k) {
            seq!["-P"@, t]
        } else {
            Seq::empty()
        }
    }
}

/// Builds the profile-selection arguments for a browser family.
pub fn add_profile_args(browser_name: &str, profile: &str) -> (r: Vec<String>)
    ensures
        r.deep_view() == add_profile_args_spec(browser_name@, profile@),
{
    let t = trim_chars(profile);
    let mut out: Vec<String> = Vec::new();
    assert(out.deep_view() =~= Seq::<Seq<char>>::empty());
    if t.as_str().unicode_len() == 0 {
        return out;
    }
    let key = normalize_browser_key(browser_name);
    let k = key.as_str();
    if str_eq(k, "chrome") || str_eq(k, "chromebeta") || str_eq(k, "chromedev") || str_eq(
        k,
        "chromecanary",
    ) || str_eq(k, "chromium") || str_eq(k, "edge") || str_eq(k, "edgebeta") || str_eq(
        k,
        "edgedev",
    ) || str_eq(k, "edgecanary") || str_eq(k, "brave") || str_eq(k, "vivaldi") || str_eq(
        k,
        "thorium",
    ) {
        let mut arg = String::new();
        arg.append("--profile-directory=");
        arg.append(t.as_str());
        out.push(arg);
        assert(out.deep_view() =~= seq!["--profile-directory="@ + t@]);
    } else if str_eq(k, "firefox") || str_eq(k, "firefoxbeta") || str_eq(k, "waterfox") {
        let mut flag = String::new();
        flag.append("-P");
        out.push(flag);
        out.push(t);
        assert(out.deep_view() =~= seq!["-P"@, trim_spec(profile@)]);
    }
    out
}

/// The per-browser user-data-directory suffix under the per-OS base
/// directory, by normalized browser key.
pub open spec fn user_data_suffix_spec(os: OsKind, k: Seq<char>) -> Option<Seq<char>> {
    match os {
        OsKind::Windows => if k == "chrome"@ {
            Some("\\Google\\Chrome\\User Data"@)
        } else if k == "chromebeta"@ {
            Some("\\Google\\Chrome Beta\\User Data"@)
        } else if k == "chromedev"@ {
            Some("\\Google\\Chrome Dev\\User Data"@)
        } else if k == "chromecanary"@ {
            Some("\\Google\\Chrome SxS\\User Data"@)
        } else if k == "chromium"@ {
            Some("\\Chromium\\User Data"@)
        } else if k == "edge"@ {
            Some("\\Microsoft\\Edge\\User Data"@)
        } else if k == "edgebeta"@ {
            Some("\\Microsoft\\Edge Beta\\User Data"@)
        } else if k == "edgedev"@ {
            Some("\\Microsoft\\Edge Dev\\User Data"@)
        } else if k == "edgecanary"@ {
            Some("\\Microsoft\\Edge SxS\\User Data"@)
        } else if k == "brave"@ {
            Some("\\BraveSoftware\\Brave-Browser\\User Data"@)
        } else if k == "vivaldi"@ {
            Some("\\Vivaldi\\User Data"@)
        } else if k == "thorium"@ {
            Some("\\Thorium\\User Data"@)
        } else {
            None
        },
        OsKind::Linux => if k == "chrome"@ || k == "chromium"@ {
            Some("/google-chrome"@)
        } else if k == "brave"@ {
            Some("/BraveSoftware/Brave-Browser"@)
        } else if k == "vivaldi"@ {
            Some("/vivaldi"@)
        } else {
            None
        },
        OsKind::Macos => if k == "chrome"@ {
            Some("/Library/Application Support/Google/Chrome"@)
        } else if k == "brave"@ {
            Some("/Library/Application Support/BraveSoftware/Brave-Browser"@)
        } else if k == "edge"@ {
            Some("/Library/Application Support/Microsoft Edge"@)
        } else {
            None
        },
        OsKind::Other => None,
    }
}

/// The user-data directory a browser gets under the per-OS base directory,
/// or `None` where no override is known for that browser on that OS.
pub open spec fn user_data_dir_spec(browser: Seq<char>, os: OsKind, base: Seq<char>) -> Option<
    Seq<char>,
> {
    match user_data_suffix_spec(os, browser_key_spec(browser)) {
        Some(sfx) => Some(base + sfx),
        None => None,
    }
}

/// Appends `suffix` to `base`.
fn join2(base: &str, suffix: &str) -> (r: String)
    ensures
        r@ == base@ + suffix@,
{
    let mut s = base.to_owned();
    s.append(suffix);
    s
}

/// Resolves the per-browser user-data directory under `base_dir`, the
/// OS-appropriate base (local application data on Windows, the configuration
/// directory on Linux, the home directory on macOS).
pub fn browser_user_data_dir(browser_name: &str, os: OsKind, base_dir: &str) -> (r: Option<
    String,
>)
    ensures
        r.deep_view() == user_data_dir_spec(browser_name@, os, base_dir@),
{
    let key = normalize_browser_key(browser_name);
    let k = key.as_str();
    match os {
        OsKind::Windows => {
            if str_eq(k, "chrome") {
                Some(join2(base_dir, "\\Google\\Chrome\\User Data"))
            } else if str_eq(k, "chromebeta") {
                Some(join2(base_dir, "\\Google\\Chrome Beta\\User Data"))
            } else if str_eq(k, "chromedev") {
                Some(join2(base_dir, "\\Google\\Chrome Dev\\User Data"))
            } else if str_eq(k, "chromecanary") {
                Some(join2(base_dir, "\\Google\\Chrome SxS\\User Data"))
            } else if str_eq(k, "chromium") {
                Some(join2(base_dir, "\\Chromium\\User Data"))
            } else if str_eq(k, "edge") {
                Some(join2(base_dir, "\\Microsoft\\Edge\\User Data"))
            } else if str_eq(k, "edgebeta") {
                Some(join2(base_dir, "\\Microsoft\\Edge Beta\\User Data"))
            } else if str_eq(k, "edgedev") {
                Some(join2(base_dir, "\\Microsoft\\Edge Dev\\User Data"))
            } else if str_eq(k, "edgecanary") {
                Some(join2(base_dir, "\\Microsoft\\Edge SxS\\User Data"))
            } else if str_eq(k, "brave") {
                Some(join2(base_dir, "\\BraveSoftware\\Brave-Browser\\User Data"))
            } else if str_eq(k, "vivaldi") {
                Some(join2(base_dir, "\\Vivaldi\\User Data"))
            } else if str_eq(k, "thorium") {
                Some(join2(base_dir, "\\Thorium\\User Data"))
            } else {
                None
            }
        },
        OsKind::Linux => {
            if str_eq(k, "chrome") || str_eq(k, "chromium") {
                Some(join2(base_dir, "/google-chrome"))
            } else if str_eq(k, "brave") {
                Some(join2(base_dir, "/BraveSoftware/Brave-Browser"))
            } else if str_eq(k, "vivaldi") {
                Some(join2(base_dir, "/vivaldi"))
            } else {
                None
            }
        },
        OsKind::Macos => {
            if str_eq(k, "chrome") {
                Some(join2(base_dir, "/Library/Application Support/Google/Chrome"))
            } else if str_eq(k, "brave") {
                Some(join2(base_dir, "/Library/Application Support/BraveSoftware/Brave-Browser"))
            } else if str_eq(k, "edge") {
                Some(join2(base_dir, "/Library/Application Support/Microsoft Edge"))
            } else {
                None
            }
        },
        OsKind::Other => None,
    }
}

/// The full argument list handed to the browser executable: profile switches,
/// then the user-data-directory override, then the URL.
pub open spec fn launch_args_spec(
    browser: Seq<char>,
    url: Seq<char>,
    profile_directory: Option<Seq<char>>,
    user_data_dir: Option<Seq<char>>,
) -> Seq<Seq<char>> {
    (match profile_directory {
        Some(p) => add_profile_args_spec(browser, p),
        None => Seq::empty(),
    }) + (match user_data_dir {
        Some(d) => seq!["--user-data-dir="@ + d],
        None => Seq::empty(),
    }) + seq![url]
}

/// Assembles the child-process argument list for one launch.
pub fn build_launch_args(
    browser_name: &str,
    url: &str,
    profile_directory: &Option<String>,
    user_data_dir: &Option<String>,
) -> (r: Vec<String>)
    ensures
        r.deep_view() == launch_args_spec(
            browser_name@,
            url@,
            profile_directory.deep_view(),
            user_data_dir.deep_view(),
        ),
{
    let mut out: Vec<String> = match profile_directory {
        Some(p) => add_profile_args(browser_name, p.as_str()),
        None => Vec::new(),
    };
    let ghost first = out.deep_view();
    if let Some(d) = user_data_dir {
        let mut arg = String::new();
        arg.append("--user-data-dir=");
        arg.append(d.as_str());
        out.push(arg);
    }
    let ghost second = out.deep_view();
    out.push(url.to_owned());
    proof {
        let pargs = match profile_directory.deep_view() {
            Some(p) => add_profile_args_spec(browser_name@, p),
            None => Seq::empty(),
        };
        let uargs: Seq<Seq<char>> = match user_data_dir.deep_view() {
            Some(d) => seq!["--user-data-dir="@ + d],
            None => Seq::empty(),
        };
        assert(first =~= pargs);
        assert(second =~= pargs + uargs);
        assert(out.deep_view() =~= pargs + uargs + seq![url@]);
    }
    out
}

/// The history never holds more than this many decisions.
pub const HISTORY_LIMIT: usize = 50;

/// `h` after prepending `d` and truncating to the history bound.
pub open spec fn history_after(h: Seq<LaunchDecisionV>, d: LaunchDecisionV) -> Seq<
    LaunchDecisionV,
> {
    let all = seq![d] + h;
    if all.len() <= HISTORY_LIMIT {
        all
    } else {
        all.take(HISTORY_LIMIT as int)
    }
}

/// `o` kept only when it holds a non-empty string.
pub open spec fn nonempty_opt(o: Option<Seq<char>>) -> Option<Seq<char>> {
    match o {
        Some(s) => if s.len() > 0 {
            Some(s)
        } else {
            None
        },
        None => None,
    }
}

/// The decision a fallback preference makes for a registered link: the
/// preference's browser and non-empty profile fields, persisted `Always`.
pub open spec fn fallback_decision_view(lv: IncomingLinkV, fv: FallbackPreferenceV) -> LaunchDecisionV {
    LaunchDecisionV {
        id: lv.id,
        url: lv.url,
        browser: fv.browser,
        profile_label: nonempty_opt(
            match fv.profile {
                Some(p) => p.label,
                None => None,
            },
        ),
        profile_directory: nonempty_opt(
            match fv.profile {
                Some(p) => p.directory,
                None => None,
            },
        ),
        persist: PersistChoice::Always,
        decided_at: None,
        source_app: lv.source_app,
        contact_name: lv.contact_name,
    }
}

/// A decision's URL is usable when its normalization is non-empty and the
/// URL parser accepts it; anything else is rejected at resolution time.
pub open spec fn valid_resolution_url(url: Seq<char>) -> bool {
    let nu = normalize_url_spec(url);
    nu.len() > 0 && url_accepts(nu)
}

/// A decision as committed: its URL normalized, its decision time filled.
pub open spec fn resolved_decision_view(
    dv: LaunchDecisionV,
    decided_at: Option<Seq<char>>,
) -> LaunchDecisionV {
    LaunchDecisionV { url: normalize_url_spec(dv.url), decided_at, ..dv }
}

/// The error a resolution with no usable URL fails with.
pub open spec fn invalid_url_message() -> Seq<char> {
    "Link does not contain a valid URL to open."@
}

/// The orchestrator: holds the pending link and the bounded decision
/// history.
#[derive(Debug)]
pub struct RoutingService {
    active: Option<IncomingLink>,
    history: Vec<LaunchDecision>,
}

impl RoutingService {
    /// The pending, unresolved link.
    pub closed spec fn active_view(&self) -> Option<IncomingLinkV> {
        self.active.deep_view()
    }

    /// The committed decisions, most recent first.
    pub closed spec fn history_view(&self) -> Seq<LaunchDecisionV> {
        self.history.deep_view()
    }

    /// A service with no pending link and an empty history.
    pub fn new() -> (r: Self)
        ensures
            r.active_view() is None,
            r.history_view() == Seq::<LaunchDecisionV>::empty(),
    {
        let r = RoutingService { active: None, history: Vec::new() };
        proof {
            assert(r.history_view() =~= Seq::<LaunchDecisionV>::empty());
        }
        r
    }

    /// A read-only copy of `{active, history}`.
    pub fn snapshot(&self) -> (r: RoutingSnapshot)
        ensures
            r.active.deep_view() == self.active_view(),
            r.history.deep_view() == self.history_view(),
    {
        let active = match &self.active {
            Some(l) => Some(l.clone()),
            None => None,
        };
        let mut history: Vec<LaunchDecision> = Vec::new();
        let mut i: usize = 0;
        while i < self.history.len()
            invariant
                0 <= i <= self.history@.len(),
                history.deep_view() =~= self.history.deep_view().take(i as int),
            decreases self.history@.len() - i,
        {
            let ghost sofar = history.deep_view();
            history.push(self.history[i].clone());
            assert(history.deep_view() =~= sofar.push(self.history.deep_view()[i as int]));
            i = i + 1;
        }
        assert(history.deep_view() =~= self.history.deep_view());
        RoutingSnapshot { active, history }
    }

    /// Forces the pending link to `None` without recording a decision.
    pub fn clear_active(&mut self)
        ensures
            final(self).active_view() is None,
            final(self).history_view() == old(self).history_view(),
    {
        self.active = None;
    }

    /// Commits a launch decision: rejects it when its URL normalizes to the
    /// empty string or still fails to parse, leaving the state untouched;
    /// otherwise fills the decision time if absent, clears the pending link,
    /// prepends the decision to the history and caps the history at
    /// `HISTORY_LIMIT`.
    pub fn resolve(&mut self, decision: LaunchDecision) -> (r: Result<LaunchDecision, String>)
        ensures
            r is Err <==> !valid_resolution_url(decision@.url),
            r matches Err(m) ==> m@ == invalid_url_message() && final(self).active_view() == old(self).active_view() && final(self).history_view() == old(self).history_view(),
            r matches Ok(d) ==> ({
                &&& d@ == resolved_decision_view(decision@, d@.decided_at)
                &&& decision@.decided_at is Some ==> d@.decided_at == decision@.decided_at
                &&& decision@.decided_at is None ==> (d@.decided_at matches Some(ts) && ts.len()
                    > 0)
                &&& final(self).active_view() is None
                &&& final(self).history_view() == history_after(old(self).history_view(), d@)
            }),
    {
        let mut decision = decision;
        let nu = normalize_url(decision.url.as_str());
        if nu.as_str().unicode_len() == 0 {
            return Err("Link does not contain a valid URL to open.".to_owned());
        }
        if parse_url_parts(nu.as_str()).is_none() {
            return Err("Link does not contain a valid URL to open.".to_owned());
        }
        decision.url = nu;
        if decision.decided_at.is_none() {
            decision.decided_at = Some(rfc3339_now());
        }
        self.active = None;
        let ghost oldh = self.history.deep_view();
        let committed = decision.clone();
        self.history.insert(0, committed);
        assert(self.history.deep_view() =~= seq![decision@] + oldh);
        if self.history.len() > HISTORY_LIMIT {
            let ghost grown = self.history.deep_view();
            self.history.truncate(HISTORY_LIMIT);
            assert(self.history.deep_view() =~= grown.take(HISTORY_LIMIT as int));
        }
        Ok(decision)
    }

    /// Registers an incoming link: assigns an id if missing, normalizes the
    /// URL, makes the link the pending one, and — when a fallback preference
    /// is given — immediately commits the decision it implies, reporting
    /// that automatic resolution's outcome alongside the registered link.
    pub fn register_incoming(
        &mut self,
        link: IncomingLink,
        fallback: Option<&FallbackPreference>,
    ) -> (r: (IncomingLink, Option<Result<LaunchDecision, String>>))
        ensures
            r.0@.id.len() > 0,
            link@.id.len() > 0 ==> r.0@.id == link@.id,
            link@.id.len() == 0 ==> r.0@.id.len() == 36,
            r.0@.url == normalize_url_spec(link@.url),
            r.0@.source_app == link@.source_app,
            r.0@.source_context == link@.source_context,
            r.0@.contact_name == link@.contact_name,
            r.0@.preview == link@.preview,
            r.0@.recommended_browser == link@.recommended_browser,
            r.0@.arrived_at == link@.arrived_at,
            fallback is None ==> r.1 is None && final(self).active_view() == Some(r.0@) && final(self).history_view() == old(self).history_view(),
            fallback matches Some(fb) ==> ({
                let d0 = fallback_decision_view(r.0@, fb@);
                &&& r.1 is Some
                &&& !valid_resolution_url(d0.url) ==> ((r.1)->Some_0 matches Err(m) && m@
                    == invalid_url_message() && final(self).active_view() == Some(r.0@) && final(self).history_view() == old(self).history_view())
                &&& valid_resolution_url(d0.url) ==> ((r.1)->Some_0 matches Ok(d) && d@
                    == resolved_decision_view(d0, d@.decided_at) && d@.decided_at is Some
                    && final(self).active_view() is None && final(self).history_view()
                    == history_after(old(self).history_view(), d@))
            }),
    {
        let mut link = link;
        if link.id.as_str().unicode_len() == 0 {
            link.id = fresh_uuid();
        }
        link.url = normalize_url(link.url.as_str());
        self.active = Some(link.clone());
        let registered = link;
        match fallback {
            Some(fb) => {
                let profile_label = match &fb.profile {
                    Some(p) => match &p.label {
                        Some(s) => if s.as_str().unicode_len() > 0 {
                            Some(s.clone())
                        } else {
                            None
                        },
                        None => None,
                    },
                    None => None,
                };
                let profile_directory = match &fb.profile {
                    Some(p) => match &p.directory {
                        Some(s) => if s.as_str().unicode_len() > 0 {
                            Some(s.clone())
                        } else {
                            None
                        },
                        None => None,
                    },
                    None => None,
                };
                let decision = LaunchDecision {
                    id: registered.id.clone(),
                    url: registered.url.clone(),
                    browser: fb.browser.clone(),
                    profile_label,
                    profile_directory,
                    persist: PersistChoice::Always,
                    decided_at: None,
                    source_app: registered.source_app.clone(),
                    contact_name: clone_opt_string(&registered.contact_name),
                };
                assert(decision@ == fallback_decision_view(registered@, fb@));
                let outcome = self.resolve(decision);
                (registered, Some(outcome))
            },
            None => (registered, None),
        }
    }
}

/// Row `i` of the parallel `(name, path)` lists names the sought browser
/// and has an executable: its name's key equals the needle's key and its
/// path is present.
pub open spec fn row_matches(
    names: Seq<Seq<char>>,
    paths: Seq<Option<Seq<char>>>,
    needle: Seq<char>,
    i: int,
) -> bool {
    &&& 0 <= i < names.len()
    &&& i < paths.len()
    &&& browser_key_spec(names[i]) == browser_key_spec(needle)
    &&& paths[i] is Some
}

/// Selects the executable of the first row whose browser name compares
/// equal to `needle` by normalized key and that has a path: `Some` exactly
/// when such a row exists, and then the first such row's path.  So
/// "Google Chrome", "google-chrome" and "GoogleChrome" all select the same
/// row.
pub fn pick_browser_path(names: &Vec<String>, paths: &Vec<Option<String>>, needle: &str) -> (r:
    Option<String>)
    ensures
        r is Some <==> exists|i: int|
            row_matches(names.deep_view(), paths.deep_view(), needle@, i),
        r matches Some(p) ==> exists|i: int|
            {
                &&& row_matches(names.deep_view(), paths.deep_view(), needle@, i)
                &&& Some(p@) == paths.deep_view()[i]
                &&& forall|m: int|
                    0 <= m < i ==> !row_matches(names.deep_view(), paths.deep_view(), needle@, m)
            },
{
    let ghost namesv = names.deep_view();
    let ghost pathsv = paths.deep_view();
    let key = normalize_browser_key(needle);
    let mut i: usize = 0;
    while i < names.len() && i < paths.len()
        invariant
            namesv == names.deep_view(),
            pathsv == paths.deep_view(),
            key@ == browser_key_spec(needle@),
            0 <= i <= namesv.len(),
            forall|m: int| 0 <= m < i ==> !row_matches(namesv, pathsv, needle@, m),
        decreases namesv.len() - i,
    {
        assert(namesv[i as int] == names@[i as int]@);
        assert(pathsv[i as int] == paths@[i as int].deep_view());
        let row_key = normalize_browser_key(names[i].as_str());
        if str_eq(row_key.as_str(), key.as_str()) {
            assert(browser_key_spec(namesv[i as int]) == browser_key_spec(needle@));
            match &paths[i] {
                Some(p) => {
                    assert(pathsv[i as int] is Some);
                    assert(row_matches(namesv, pathsv, needle@, i as int));
                    return Some(p.clone());
                },
                None => {
                    assert(pathsv[i as int] is None);
                    assert(!row_matches(namesv, pathsv, needle@, i as int));
                },
            }
        } else {
            assert(browser_key_spec(namesv[i as int]) != browser_key_spec(needle@));
            assert(!row_matches(namesv, pathsv, needle@, i as int));
        }
        i = i + 1;
    }
    assert(forall|m: int| !row_matches(namesv, pathsv, needle@, m)) by {
        assert(forall|m: int|
            row_matches(namesv, pathsv, needle@, m) ==> 0 <= m < i);
    }
    None
}

/// Resolves the executable path of the named browser against the set of
/// browsers installed on this machine.  Which names and paths the
/// enumeration yields is host state, so nothing is promised of it; the
/// first-match-by-normalized-key selection over those values is
/// `pick_browser_path`, which is verified.
pub fn resolve_browser_path(name: &str) -> Option<String> {
    let browsers = existing_browsers();
    let mut names: Vec<String> = Vec::new();
    let mut paths: Vec<Option<String>> = Vec::new();
    let mut i: usize = 0;
    while i < browsers.len()
        decreases browsers@.len() - i,
    {
        names.push(browser_name(&browsers[i]));
        paths.push(browser_path(&browsers[i]));
        i = i + 1;
    }
    pick_browser_path(&names, &paths, name)
}

/// The message published when no executable matches a decision's browser.
pub open spec fn no_executable_message_spec(browser: Seq<char>, id: Seq<char>) -> Seq<char> {
    "No executable found for browser '"@ + browser + "' while handling id="@ + id + "."@
}

/// Renders the path-resolution failure message for one decision.
pub fn no_executable_message(browser: &str, id: &str) -> (r: String)
    ensures
        r@ == no_executable_message_spec(browser@, id@),
{
    let mut m = String::new();
    m.append("No executable found for browser '");
    m.append(browser);
    m.append("' while handling id=");
    m.append(id);
    m.append(".");
    m
}

/// The mathematical value of a `SimulatedLinkPayload`.
pub struct SimulatedLinkPayloadV {
    pub url: Option<Seq<char>>,
    pub source_app: Option<Seq<char>>,
    pub contact_name: Option<Seq<char>>,
    pub source_context: Option<Seq<char>>,
    pub preview: Option<Seq<char>>,
}

impl View for SimulatedLinkPayload {
    type V = SimulatedLinkPayloadV;

    open spec fn view(&self) -> SimulatedLinkPayloadV {
        SimulatedLinkPayloadV {
            url: self.url.deep_view(),
            source_app: self.source_app.deep_view(),
            contact_name: self.contact_name.deep_view(),
            source_context: self.source_context.deep_view(),
            preview: self.preview.deep_view(),
        }
    }
}

/// `o`'s value, or `d` when absent.
pub open spec fn or_default(o: Option<Seq<char>>, d: Seq<char>) -> Seq<char> {
    match o {
        Some(v) => v,
        None => d,
    }
}

/// The payload's fields, with all-absent for a missing payload.
pub open spec fn payload_view(payload: Option<SimulatedLinkPayload>) -> SimulatedLinkPayloadV {
    match payload {
        Some(p) => p@,
        None => SimulatedLinkPayloadV {
            url: None,
            source_app: None,
            contact_name: None,
            source_context: None,
            preview: None,
        },
    }
}

/// Builds a synthetic incoming link, defaulting every omitted field to the
/// fixed sample values.
pub fn simulate_link_payload(payload: Option<SimulatedLinkPayload>) -> (r: IncomingLink)
    ensures
        ({
            let pv = payload_view(payload);
            &&& r@.id.len() == 36
            &&& r@.url == or_default(pv.url, "https://example.com/background-launch"@)
            &&& r@.source_app == or_default(pv.source_app, "WhatsApp Desktop"@)
            &&& r@.contact_name == Some(or_default(pv.contact_name, "Automation Bot"@))
            &&& r@.source_context == Some(
                or_default(pv.source_context, "Auto-generated hand-off"@),
            )
            &&& r@.preview == Some(or_default(pv.preview, "Shared link detected."@))
            &&& r@.recommended_browser == Some(
                BrowserDescriptorV {
                    name: "Arc"@,
                    profile_label: Some("Workspace"@),
                    profile_directory: None,
                },
            )
            &&& r@.arrived_at matches Some(ts) && ts.len() > 0
        }),
{
    let data = match payload {
        Some(p) => p,
        None => SimulatedLinkPayload::default(),
    };
    let url = match data.url {
        Some(u) => u,
        None => {
            let mut s = String::new();
            s.append("https://example.com/background-launch");
            s
        },
    };
    let source_app = match data.source_app {
        Some(a) => a,
        None => {
            let mut s = String::new();
            s.append("WhatsApp Desktop");
            s
        },
    };
    let contact_name = match data.contact_name {
        Some(c) => c,
        None => {
            let mut s = String::new();
            s.append("Automation Bot");
            s
        },
    };
    let source_context = match data.source_context {
        Some(c) => Some(c),
        None => {
            let mut s = String::new();
            s.append("Auto-generated hand-off");
            Some(s)
        },
    };
    let preview = match data.preview {
        Some(p) => Some(p),
        None => {
            let mut s = String::new();
            s.append("Shared link detected.");
            Some(s)
        },
    };
    let mut arc = String::new();
    arc.append("Arc");
    let mut workspace = String::new();
    workspace.append("Workspace");
    IncomingLink {
        id: fresh_uuid(),
        url,
        source_app,
        source_context,
        contact_name: Some(contact_name),
        preview,
        recommended_browser: Some(
            BrowserDescriptor {
                name: arc,
                profile_label: Some(workspace),
                profile_directory: None,
            },
        ),
        arrived_at: Some(rfc3339_now()),
    }
}

} // verus!
