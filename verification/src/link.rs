//! Extraction of well-formed http/https URLs from raw argument tokens.
//!
//! A literal `--` switches into positional mode, where every later token is
//! a raw candidate.  Before it, `--url=<v>`, `url=<v>` and any token
//! containing `=` contribute the text after the first `=`; every candidate is
//! unquoted, unwrapped from `<...>`, percent-decoded when it contains `%3A`
//! or `%2F`, and kept only when it parses as an http or https URL.  Output
//! preserves first-seen order and holds no duplicates.

use vstd::prelude::*;
use crate::text::{
    contains_seq, contains_sub, is_ws, lemma_trim_end_if_at, lemma_trim_start_if_at,
    starts_with_spec, starts_with_sub, str_eq, trim_end_if, trim_if, trim_start_if,
};
use crate::weburl::{
    parse_url_parts, pct_decode_of, percent_decode_utf8, url_accepts, url_scheme_of,
    url_serial_of,
};

verus! {

/// Where a batch of raw tokens came from.
#[derive(Debug, Clone, Copy)]
pub enum LinkSource {
    InitialLaunch,
    SecondaryInstance,
    OsEvent,
}

pub open spec fn source_app_spec(origin: LinkSource) -> Seq<char> {
    match origin {
        LinkSource::InitialLaunch => "System"@,
        LinkSource::SecondaryInstance => "System (handoff)"@,
        LinkSource::OsEvent => "Operating System"@,
    }
}

pub open spec fn source_context_spec(origin: LinkSource) -> Seq<char> {
    match origin {
        LinkSource::InitialLaunch => "App launch arguments"@,
        LinkSource::SecondaryInstance => "Secondary instance activation"@,
        LinkSource::OsEvent => "OS open-url event"@,
    }
}

impl LinkSource {
    /// The source-application label attached to links from this origin.
    pub fn source_app(self) -> (r: &'static str)
        ensures
            r@ == source_app_spec(self),
    {
        match self {
            LinkSource::InitialLaunch => "System",
            LinkSource::SecondaryInstance => "System (handoff)",
            LinkSource::OsEvent => "Operating System",
        }
    }

    /// The source-context label attached to links from this origin.
    pub fn source_context(self) -> (r: &'static str)
        ensures
            r@ == source_context_spec(self),
    {
        match self {
            LinkSource::InitialLaunch => "App launch arguments",
            LinkSource::SecondaryInstance => "Secondary instance activation",
            LinkSource::OsEvent => "OS open-url event",
        }
    }
}

/// A double or single quote, stripped from both ends of a candidate.
pub open spec fn is_quote(c: char) -> bool {
    c == '"' || c == '\''
}

/// Executable quote test.
fn is_quote_char(c: char) -> (r: bool)
    ensures
        r == is_quote(c),
{
    c == '"' || c == '\''
}

/// Removes leading and trailing quote characters.
fn trim_quote_chars(s: &str) -> (r: String)
    ensures
        r@ == trim_if(s@, |c: char| is_quote(c)),
{
    let ghost p = |c: char| is_quote(c);
    let n = s.unicode_len();
    let mut i: usize = 0;
    while i < n && is_quote_char(s.get_char(i))
        invariant
            n == s@.len(),
            0 <= i <= n,
            forall|m: int| 0 <= m < i ==> is_quote(s@[m]),
        decreases n - i,
    {
        i = i + 1;
    }
    proof {
        lemma_trim_start_if_at(s@, p, i as int);
    }
    let ghost t = trim_start_if(s@, p);
    assert(t == s@.subrange(i as int, n as int));
    let mut j: usize = n;
    while j > i && is_quote_char(s.get_char(j - 1))
        invariant
            n == s@.len(),
            i <= j <= n,
            forall|m: int| j <= m < n ==> is_quote(s@[m]),
        decreases j,
    {
        j = j - 1;
    }
    proof {
        assert(forall|m: int| j - i <= m < t.len() ==> p(t[m]));
        if j > i {
            assert(!p(t[j - i - 1]));
        }
        lemma_trim_end_if_at(t, p, j - i);
    }
    let r = s.substring_char(i, j).to_owned();
    assert(r@ =~= t.subrange(0, j - i));
    r
}

/// A candidate is percent-decoded only when one of these sequences occurs.
pub open spec fn needs_decode(s: Seq<char>) -> bool {
    contains_seq(s, "%3A"@) || contains_seq(s, "%2F"@)
}

/// The text a candidate contributes after optional percent-decoding: the
/// candidate itself unless it contains `%3A` or `%2F` and decodes cleanly.
pub open spec fn pct_if_needed_spec(s: Seq<char>) -> Seq<char> {
    if needs_decode(s) {
        match pct_decode_of(s) {
            Some(d) => d,
            None => s,
        }
    } else {
        s
    }
}

/// Percent-decodes a candidate only when it contains `%3A` or `%2F`;
/// otherwise the candidate passes through unchanged.
pub fn percent_decode_if_needed(input: &str) -> (r: String)
    ensures
        r@ == pct_if_needed_spec(input@),
        !needs_decode(input@) ==> r@ == input@,
{
    if contains_sub(input, "%3A") || contains_sub(input, "%2F") {
        match percent_decode_utf8(input) {
            Some(d) => d,
            None => input.to_owned(),
        }
    } else {
        input.to_owned()
    }
}

/// A candidate after unquoting and `<...>` unwrapping.
pub open spec fn unwrapped_candidate(s: Seq<char>) -> Seq<char> {
    let t = trim_if(s, |c: char| is_quote(c));
    if t.len() >= 2 && t[0] == '<' && t[t.len() - 1] == '>' {
        t.subrange(1, t.len() - 1)
    } else {
        t
    }
}

/// What `parse_candidate` yields: the canonical serialization of the cleaned
/// candidate when the URL parser accepts it with scheme http or https.
pub open spec fn parse_candidate_spec(s: Seq<char>) -> Option<Seq<char>> {
    let t = trim_if(s, |c: char| is_quote(c));
    if t.len() == 0 {
        None
    } else {
        let d = pct_if_needed_spec(unwrapped_candidate(s));
        if url_accepts(d) && (url_scheme_of(d) == "http"@ || url_scheme_of(d) == "https"@) {
            Some(url_serial_of(d))
        } else {
            None
        }
    }
}

/// Cleans one candidate and keeps it only as an http/https URL.
pub fn parse_candidate(input: &str) -> (r: Option<String>)
    ensures
        r.deep_view() == parse_candidate_spec(input@),
{
    let t = trim_quote_chars(input);
    let n = t.as_str().unicode_len();
    if n == 0 {
        return None;
    }
    let u: String = if n >= 2 && t.as_str().get_char(0) == '<' && t.as_str().get_char(n - 1)
        == '>' {
        t.as_str().substring_char(1, n - 1).to_owned()
    } else {
        t
    };
    assert(u@ =~= unwrapped_candidate(input@));
    let d = percent_decode_if_needed(u.as_str());
    match parse_url_parts(d.as_str()) {
        Some(p) => {
            if str_eq(p.scheme.as_str(), "http") || str_eq(p.scheme.as_str(), "https") {
                Some(p.serialized)
            } else {
                None
            }
        },
        None => None,
    }
}

/// What `parse_argument` yields: the whole token as a candidate, else the
/// value of a `--url=` or `url=` flag.
pub open spec fn parse_argument_spec(arg: Seq<char>) -> Option<Seq<char>> {
    if parse_candidate_spec(arg) is Some {
        parse_candidate_spec(arg)
    } else if starts_with_spec(arg, "--url="@) {
        parse_candidate_spec(arg.subrange(6, arg.len() as int))
    } else if starts_with_spec(arg, "url="@) {
        parse_candidate_spec(arg.subrange(4, arg.len() as int))
    } else {
        None
    }
}

/// Reads one argument token as a URL candidate or a url flag.
pub fn parse_argument(arg: &str) -> (r: Option<String>)
    ensures
        r.deep_view() == parse_argument_spec(arg@),
{
    proof {
        reveal_strlit("--url=");
        reveal_strlit("url=");
    }
    if let Some(candidate) = parse_candidate(arg) {
        return Some(candidate);
    }
    let n = arg.unicode_len();
    if starts_with_sub(arg, "--url=") {
        return parse_candidate(arg.substring_char(6, n).to_owned().as_str());
    }
    if starts_with_sub(arg, "url=") {
        return parse_candidate(arg.substring_char(4, n).to_owned().as_str());
    }
    None
}

/// Index of the first occurrence of `c` in `s`, or `s.len()` if absent.
pub open spec fn first_index_of(s: Seq<char>, c: char) -> int
    decreases s.len(),
{
    if s.len() == 0 {
        0
    } else if s[0] == c {
        0
    } else {
        1 + first_index_of(s.subrange(1, s.len() as int), c)
    }
}

pub(crate) proof fn lemma_first_index_at(s: Seq<char>, c: char, i: int)
    requires
        0 <= i <= s.len(),
        forall|m: int| 0 <= m < i ==> s[m] != c,
        i == s.len() || s[i] == c,
    ensures
        first_index_of(s, c) == i,
    decreases i,
{
    if i == 0 {
        if s.len() != 0 && s[0] != c {
            let t = s.subrange(1, s.len() as int);
            assert(s[0] == c);
        }
    } else {
        assert(s[0] != c);
        let t = s.subrange(1, s.len() as int);
        lemma_first_index_at(t, c, i - 1);
    }
}

/// Finds the first occurrence of `c`.
pub(crate) fn find_char(s: &str, c: char) -> (r: Option<usize>)
    ensures
        match r {
            Some(i) => i == first_index_of(s@, c) && i < s@.len() && s@[i as int] == c,
            None => first_index_of(s@, c) == s@.len(),
        },
{
    let n = s.unicode_len();
    let mut i: usize = 0;
    while i < n
        invariant
            n == s@.len(),
            0 <= i <= n,
            forall|m: int| 0 <= m < i ==> s@[m] != c,
        decreases n - i,
    {
        if s.get_char(i) == c {
            proof {
                lemma_first_index_at(s@, c, i as int);
            }
            return Some(i);
        }
        i = i + 1;
    }
    proof {
        lemma_first_index_at(s@, c, n as int);
    }
    None
}

/// Appends `v` only when it is not already present.
pub open spec fn push_unique_spec(acc: Seq<Seq<char>>, v: Seq<char>) -> Seq<Seq<char>> {
    if acc.contains(v) {
        acc
    } else {
        acc.push(v)
    }
}

/// Membership test by character-level equality.
fn contains_string(list: &Vec<String>, v: &str) -> (r: bool)
    ensures
        r == list.deep_view().contains(v@),
{
    let mut i: usize = 0;
    while i < list.len()
        invariant
            0 <= i <= list@.len(),
            forall|m: int| 0 <= m < i ==> list.deep_view()[m] != v@,
        decreases list@.len() - i,
    {
        if str_eq(list[i].as_str(), v) {
            assert(list.deep_view()[i as int] == v@);
            return true;
        }
        i = i + 1;
    }
    false
}

/// Appends `value` to `list` unless an equal string is already there.
pub fn push_unique(list: &mut Vec<String>, value: String)
    ensures
        final(list).deep_view() == push_unique_spec(old(list).deep_view(), value@),
{
    if !contains_string(list, value.as_str()) {
        let ghost before = list.deep_view();
        list.push(value);
        assert(list.deep_view() =~= before.push(value@));
    }
}

/// One pass of extraction from position `i` on, carrying the positional-mode
/// flag and the URLs collected so far.  In positional mode every token is a
/// raw candidate; before it, flag and `=` forms contribute their values.
pub open spec fn extract_rec(
    args: Seq<Seq<char>>,
    i: int,
    after: bool,
    acc: Seq<Seq<char>>,
) -> Seq<Seq<char>>
    decreases args.len() - i,
{
    if i < 0 || i >= args.len() {
        acc
    } else {
        let raw = args[i];
        if raw == "--"@ {
            extract_rec(args, i + 1, true, acc)
        } else if after {
            match parse_candidate_spec(raw) {
                Some(v) => extract_rec(args, i + 1, after, push_unique_spec(acc, v)),
                None => extract_rec(args, i + 1, after, acc),
            }
        } else if parse_argument_spec(raw) is Some {
            extract_rec(args, i + 1, after, push_unique_spec(acc, parse_argument_spec(raw)->Some_0))
        } else {
            let k = first_index_of(raw, '=');
            if k < raw.len() {
                match parse_candidate_spec(raw.subrange(k + 1, raw.len() as int)) {
                    Some(v) => extract_rec(args, i + 1, after, push_unique_spec(acc, v)),
                    None => extract_rec(args, i + 1, after, acc),
                }
            } else {
                extract_rec(args, i + 1, after, acc)
            }
        }
    }
}

/// The deduplicated ordered sequence of http/https URLs in `args`.
pub open spec fn extract_urls_spec(args: Seq<Seq<char>>) -> Seq<Seq<char>> {
    extract_rec(args, 0, false, Seq::empty())
}

/// Collects the unique http/https URLs named by a batch of raw tokens.
pub fn extract_urls(args: &Vec<String>) -> (r: Vec<String>)
    ensures
        r.deep_view() == extract_urls_spec(args.deep_view()),
{
    let mut collected: Vec<String> = Vec::new();
    let mut after = false;
    let mut idx: usize = 0;
    assert(collected.deep_view() =~= Seq::<Seq<char>>::empty());
    while idx < args.len()
        invariant
            0 <= idx <= args@.len(),
            extract_rec(args.deep_view(), idx as int, after, collected.deep_view())
                == extract_urls_spec(args.deep_view()),
        decreases args@.len() - idx,
    {
        let raw = &args[idx];
        assert(args.deep_view()[idx as int] == raw@);
        if str_eq(raw.as_str(), "--") {
            after = true;
        } else if after {
            if let Some(parsed) = parse_candidate(raw.as_str()) {
                push_unique(&mut collected, parsed);
            }
        } else if let Some(parsed) = parse_argument(raw.as_str()) {
            push_unique(&mut collected, parsed);
        } else {
            let n = raw.as_str().unicode_len();
            if let Some(k) = find_char(raw.as_str(), '=') {
                let value = raw.as_str().substring_char(k + 1, n).to_owned();
                if let Some(parsed) = parse_candidate(value.as_str()) {
                    push_unique(&mut collected, parsed);
                }
            }
        }
        idx = idx + 1;
    }
    collected
}

/// A string that is the parser's serialization of some input it accepted
/// with scheme http or https.
pub open spec fn is_http_serial(e: Seq<char>) -> bool {
    exists|d: Seq<char>|
        url_accepts(d) && (url_scheme_of(d) == "http"@ || url_scheme_of(d) == "https"@) && e
            == url_serial_of(d)
}

proof fn lemma_candidate_http(s: Seq<char>)
    ensures
        parse_candidate_spec(s) matches Some(v) ==> is_http_serial(v),
{
    if parse_candidate_spec(s) is Some {
        let d = pct_if_needed_spec(unwrapped_candidate(s));
        assert(url_accepts(d) && (url_scheme_of(d) == "http"@ || url_scheme_of(d) == "https"@)
            && parse_candidate_spec(s)->Some_0 == url_serial_of(d));
    }
}

proof fn lemma_argument_http(arg: Seq<char>)
    ensures
        parse_argument_spec(arg) matches Some(v) ==> is_http_serial(v),
{
    lemma_candidate_http(arg);
    lemma_candidate_http(arg.subrange(6, arg.len() as int));
    lemma_candidate_http(arg.subrange(4, arg.len() as int));
}

proof fn lemma_push_unique_ok(acc: Seq<Seq<char>>, v: Seq<char>)
    requires
        acc.no_duplicates(),
        forall|k: int| 0 <= k < acc.len() ==> is_http_serial(#[trigger] acc[k]),
        is_http_serial(v),
    ensures
        push_unique_spec(acc, v).no_duplicates(),
        forall|k: int|
            0 <= k < push_unique_spec(acc, v).len() ==> is_http_serial(
                #[trigger] push_unique_spec(acc, v)[k],
            ),
{
    if !acc.contains(v) {
        let r = acc.push(v);
        assert forall|i: int, j: int| 0 <= i < r.len() && 0 <= j < r.len() && i != j implies r[i]
            != r[j] by {
            if i < acc.len() && j < acc.len() {
            } else if i == acc.len() {
                assert(acc[j] != v) by {
                    if acc[j] == v {
                        assert(acc.contains(v));
                    }
                }
            } else {
                assert(acc[i] != v) by {
                    if acc[i] == v {
                        assert(acc.contains(v));
                    }
                }
            }
        }
    }
}

proof fn lemma_extract_rec_ok(args: Seq<Seq<char>>, i: int, after: bool, acc: Seq<Seq<char>>)
    requires
        acc.no_duplicates(),
        forall|k: int| 0 <= k < acc.len() ==> is_http_serial(#[trigger] acc[k]),
    ensures
        extract_rec(args, i, after, acc).no_duplicates(),
        forall|k: int|
            0 <= k < extract_rec(args, i, after, acc).len() ==> is_http_serial(
                #[trigger] extract_rec(args, i, after, acc)[k],
            ),
    decreases args.len() - i,
{
    if 0 <= i < args.len() {
        let raw = args[i];
        lemma_argument_http(raw);
        lemma_candidate_http(raw);
        let k = first_index_of(raw, '=');
        if 0 <= k < raw.len() {
            lemma_candidate_http(raw.subrange(k + 1, raw.len() as int));
        }
        if raw == "--"@ {
            lemma_extract_rec_ok(args, i + 1, true, acc);
        } else if after {
            match parse_candidate_spec(raw) {
                Some(v) => {
                    lemma_push_unique_ok(acc, v);
                    lemma_extract_rec_ok(args, i + 1, after, push_unique_spec(acc, v));
                },
                None => {
                    lemma_extract_rec_ok(args, i + 1, after, acc);
                },
            }
        } else if parse_argument_spec(raw) is Some {
            lemma_push_unique_ok(acc, parse_argument_spec(raw)->Some_0);
            lemma_extract_rec_ok(
                args,
                i + 1,
                after,
                push_unique_spec(acc, parse_argument_spec(raw)->Some_0),
            );
        } else {
            if k < raw.len() {
                match parse_candidate_spec(raw.subrange(k + 1, raw.len() as int)) {
                    Some(v) => {
                        lemma_push_unique_ok(acc, v);
                        lemma_extract_rec_ok(args, i + 1, after, push_unique_spec(acc, v));
                    },
                    None => {
                        lemma_extract_rec_ok(args, i + 1, after, acc);
                    },
                }
            } else {
                lemma_extract_rec_ok(args, i + 1, after, acc);
            }
        }
    }
}

/// Law: link extraction never returns duplicates, and never returns a string
/// that is not the parser's serialization of an accepted http/https URL,
/// whatever the argument tokens are.
pub proof fn lemma_extract_urls_unique_http(args: Seq<Seq<char>>)
    ensures
        extract_urls_spec(args).no_duplicates(),
        forall|k: int|
            0 <= k < extract_urls_spec(args).len() ==> is_http_serial(
                #[trigger] extract_urls_spec(args)[k],
            ),
{
    lemma_extract_rec_ok(args, 0, false, Seq::empty());
}

} // verus!
