//! Browser identity parsing and profile discovery.
//!
//! `parse_browser_kind` normalizes a user-supplied browser name (trim,
//! lower-case, drop spaces and hyphens) and matches it against a fixed alias
//! table.  Discovery of Chromium-family profiles works on the text of the
//! browser's `Local State` file; Firefox discovery works on a directory
//! listing.  Reading those files and directories is the caller's concern: the
//! functions here hold the rules, not the I/O.

use vstd::prelude::*;
use crate::host::{browser_name, existing_browsers};
use crate::jsontext::{json_string_table, json_string_table_of};
use crate::routing::OsKind;
use crate::text::{
    is_ws, lower_string, lemma_lex_le_trans, lemma_lex_lt_asym, lemma_lex_lt_irrefl,
    lemma_lex_total, lemma_trim_end_if_at, lemma_trim_start_if_at, lex_le, lex_lt, lower_char,
    lower_seq, str_lt, trim_end_if, trim_spec, trim_start_if, trim_chars, lower_char_exec,
    push_char, str_eq,
};

verus! {

/// The browser families this crate can discover profiles for.
#[derive(Debug, Clone, Copy, PartialEq, Eq, Structural)]
pub enum Browsers {
    Chrome,
    Edge,
    Brave,
    FireFox,
    Safari,
}

/// One discovered profile: `directory` is the unique key, `display_name` a
/// best-effort human label.
#[derive(Debug)]
pub struct ProfileDescriptor {
    pub display_name: String,
    pub directory: String,
}

/// A space or hyphen: the separators that browser aliases ignore.
pub open spec fn is_sep(c: char) -> bool {
    c == ' ' || c == '-'
}

/// `s` with every space and hyphen removed.
pub open spec fn strip_sep(s: Seq<char>) -> Seq<char>
    decreases s.len(),
{
    if s.len() == 0 {
        Seq::empty()
    } else {
        let rest = strip_sep(s.drop_last());
        if is_sep(s.last()) {
            rest
        } else {
            rest.push(s.last())
        }
    }
}

/// The normal form a browser name is matched in: trimmed, lower-cased,
/// separators removed.
pub open spec fn norm_spec(s: Seq<char>) -> Seq<char> {
    strip_sep(lower_seq(trim_spec(s)))
}

/// The alias table, applied to an already-normalized name.
pub open spec fn kind_of_norm(n: Seq<char>) -> Option<Browsers> {
    if n == "chrome"@ || n == "googlechrome"@ {
        Some(Browsers::Chrome)
    } else if n == "edge"@ || n == "microsoftedge"@ {
        Some(Browsers::Edge)
    } else if n == "brave"@ || n == "bravebrowser"@ {
        Some(Browsers::Brave)
    } else if n == "firefox"@ || n == "mozillafirefox"@ {
        Some(Browsers::FireFox)
    } else if n == "safari"@ {
        Some(Browsers::Safari)
    } else {
        None
    }
}

pub open spec fn parse_browser_kind_spec(s: Seq<char>) -> Option<Browsers> {
    kind_of_norm(norm_spec(s))
}

/// Builds the normal form of a browser name.
fn normalize_name(value: &str) -> (r: String)
    ensures
        r@ == norm_spec(value@),
{
    let t = trim_chars(value);
    let ghost lseq = lower_seq(t@);
    let n = t.unicode_len();
    let mut out = String::new();
    let mut i: usize = 0;
    while i < n
        invariant
            n == t@.len(),
            lseq == lower_seq(t@),
            0 <= i <= n,
            out@ == strip_sep(lseq.take(i as int)),
        decreases n - i,
    {
        let c = lower_char_exec(t.get_char(i));
        proof {
            assert(lseq.take(i + 1).drop_last() =~= lseq.take(i as int));
            assert(lseq.take(i + 1).last() == lower_char(t@[i as int]));
        }
        if !(c == ' ' || c == '-') {
            push_char(&mut out, c);
        }
        i = i + 1;
    }
    proof {
        assert(lseq.take(n as int) =~= lseq);
    }
    out
}

/// Matches a browser name against the alias table, insensitive to case and
/// to spaces and hyphens.  Unrecognized names yield `None`.
pub fn parse_browser_kind(value: &str) -> (r: Option<Browsers>)
    ensures
        r == parse_browser_kind_spec(value@),
{
    let n = normalize_name(value);
    let n = n.as_str();
    if str_eq(n, "chrome") || str_eq(n, "googlechrome") {
        Some(Browsers::Chrome)
    } else if str_eq(n, "edge") || str_eq(n, "microsoftedge") {
        Some(Browsers::Edge)
    } else if str_eq(n, "brave") || str_eq(n, "bravebrowser") {
        Some(Browsers::Brave)
    } else if str_eq(n, "firefox") || str_eq(n, "mozillafirefox") {
        Some(Browsers::FireFox)
    } else if str_eq(n, "safari") {
        Some(Browsers::Safari)
    } else {
        None
    }
}

/// The mathematical value of a `ProfileDescriptor`.
pub struct ProfileDescriptorV {
    pub display_name: Seq<char>,
    pub directory: Seq<char>,
}

impl View for ProfileDescriptor {
    type V = ProfileDescriptorV;

    open spec fn view(&self) -> ProfileDescriptorV {
        ProfileDescriptorV { display_name: self.display_name@, directory: self.directory@ }
    }
}

impl DeepView for ProfileDescriptor {
    type V = ProfileDescriptorV;

    open spec fn deep_view(&self) -> ProfileDescriptorV {
        self@
    }
}

/// What discovery reports for a present but unusable `Local State` file.
#[derive(Debug, Clone, Copy, PartialEq, Eq, Structural)]
pub enum DiscoveryError {
    MalformedLocalState,
}

impl DiscoveryError {
    /// A human-readable description of the error.
    pub fn message(&self) -> (r: String)
        ensures
            r@ == "Could not find 'profile' or 'info_cache' in JSON."@,
    {
        let mut m = String::new();
        m.append("Could not find 'profile' or 'info_cache' in JSON.");
        m
    }
}

/// No two profiles in `ps` share a directory.
pub open spec fn dirs_no_dup(ps: Seq<ProfileDescriptorV>) -> bool {
    forall|i: int, j: int|
        0 <= i < ps.len() && 0 <= j < ps.len() && i != j ==> ps[i].directory != ps[j].directory
}

/// Some profile in `ps` has directory `dir`.
pub open spec fn has_directory(ps: Seq<ProfileDescriptorV>, dir: Seq<char>) -> bool {
    exists|j: int| 0 <= j < ps.len() && ps[j].directory == dir
}

/// `ps` is ordered by display name.
pub open spec fn sorted_by_name(ps: Seq<ProfileDescriptorV>) -> bool {
    forall|i: int, j: int|
        0 <= i < j < ps.len() ==> lex_le(ps[i].display_name, ps[j].display_name)
}

/// Stable insertion of `x` into `s`: after every element whose display name
/// is at or before `x`'s.
pub open spec fn insert_sorted(s: Seq<ProfileDescriptorV>, x: ProfileDescriptorV) -> Seq<
    ProfileDescriptorV,
>
    decreases s.len(),
{
    if s.len() == 0 {
        seq![x]
    } else if lex_le(s.last().display_name, x.display_name) {
        s.push(x)
    } else {
        insert_sorted(s.drop_last(), x).push(s.last())
    }
}

/// Stable insertion sort by display name, processing `ps` left to right.
pub open spec fn sort_profiles_spec(ps: Seq<ProfileDescriptorV>) -> Seq<ProfileDescriptorV>
    decreases ps.len(),
{
    if ps.len() == 0 {
        ps
    } else {
        insert_sorted(sort_profiles_spec(ps.drop_last()), ps.last())
    }
}

proof fn lemma_insert_sorted_contains(s: Seq<ProfileDescriptorV>, x: ProfileDescriptorV)
    ensures
        insert_sorted(s, x).len() == s.len() + 1,
        forall|e: ProfileDescriptorV|
            #[trigger] insert_sorted(s, x).contains(e) <==> (s.contains(e) || e == x),
    decreases s.len(),
{
    let r = insert_sorted(s, x);
    if s.len() == 0 {
        assert forall|e: ProfileDescriptorV| #[trigger] r.contains(e) implies (s.contains(e) || e
            == x) by {
            let i = choose|i: int| 0 <= i < r.len() && r[i] == e;
            assert(r[0] == x);
        }
        assert(r.contains(x)) by {
            assert(r[0] == x);
        }
    } else if lex_le(s.last().display_name, x.display_name) {
        assert forall|e: ProfileDescriptorV| #[trigger] r.contains(e) implies (s.contains(e) || e
            == x) by {
            let i = choose|i: int| 0 <= i < r.len() && r[i] == e;
            if i < s.len() {
                assert(s[i] == e);
            }
        }
        assert forall|e: ProfileDescriptorV| s.contains(e) || e == x implies #[trigger] r.contains(
            e,
        ) by {
            if s.contains(e) {
                let i = choose|i: int| 0 <= i < s.len() && s[i] == e;
                assert(r[i] == e);
            } else {
                assert(r[s.len() as int] == x);
            }
        }
    } else {
        let t = s.drop_last();
        lemma_insert_sorted_contains(t, x);
        let r0 = insert_sorted(t, x);
        assert forall|e: ProfileDescriptorV| #[trigger] r.contains(e) implies (s.contains(e) || e
            == x) by {
            let i = choose|i: int| 0 <= i < r.len() && r[i] == e;
            if i < r0.len() {
                assert(r0.contains(e)) by {
                    assert(r0[i] == e);
                }
                if t.contains(e) {
                    let j = choose|j: int| 0 <= j < t.len() && t[j] == e;
                    assert(s[j] == e);
                }
            } else {
                assert(e == s.last());
                assert(s[s.len() - 1] == e);
            }
        }
        assert forall|e: ProfileDescriptorV| s.contains(e) || e == x implies #[trigger] r.contains(
            e,
        ) by {
            if e == x || t.contains(e) {
                assert(r0.contains(e));
                let j = choose|j: int| 0 <= j < r0.len() && r0[j] == e;
                assert(r[j] == e);
            } else {
                let i = choose|i: int| 0 <= i < s.len() && s[i] == e;
                if i < s.len() - 1 {
                    assert(t[i] == e);
                    assert(t.contains(e));
                } else {
                    assert(r[r.len() - 1] == e);
                }
            }
        }
    }
}

proof fn lemma_insert_sorted_dirs(s: Seq<ProfileDescriptorV>, x: ProfileDescriptorV)
    requires
        dirs_no_dup(s),
        !has_directory(s, x.directory),
    ensures
        dirs_no_dup(insert_sorted(s, x)),
    decreases s.len(),
{
    let r = insert_sorted(s, x);
    if s.len() == 0 {
    } else if lex_le(s.last().display_name, x.display_name) {
        assert forall|i: int, j: int|
            0 <= i < r.len() && 0 <= j < r.len() && i != j implies r[i].directory
            != r[j].directory by {
            if i < s.len() && j < s.len() {
            } else if i == s.len() {
                assert(s[j].directory != x.directory) by {
                    if s[j].directory == x.directory {
                        assert(has_directory(s, x.directory));
                    }
                }
            } else {
                assert(s[i].directory != x.directory) by {
                    if s[i].directory == x.directory {
                        assert(has_directory(s, x.directory));
                    }
                }
            }
        }
    } else {
        let t = s.drop_last();
        assert(dirs_no_dup(t)) by {
            assert(forall|i: int| 0 <= i < t.len() ==> t[i] == s[i]);
        }
        assert(!has_directory(t, x.directory)) by {
            if has_directory(t, x.directory) {
                let j = choose|j: int| 0 <= j < t.len() && t[j].directory == x.directory;
                assert(s[j].directory == x.directory);
            }
        }
        lemma_insert_sorted_dirs(t, x);
        lemma_insert_sorted_contains(t, x);
        let r0 = insert_sorted(t, x);
        assert forall|i: int, j: int|
            0 <= i < r.len() && 0 <= j < r.len() && i != j implies r[i].directory
            != r[j].directory by {
            if i < r0.len() && j < r0.len() {
                assert(r[i] == r0[i] && r[j] == r0[j]);
            } else {
                let k = if i < r0.len() {
                    i
                } else {
                    j
                };
                assert(r[k] == r0[k]);
                assert(r0.contains(r0[k]));
                let e = r0[k];
                assert(e.directory != s.last().directory) by {
                    if t.contains(e) {
                        let m = choose|m: int| 0 <= m < t.len() && t[m] == e;
                        assert(s[m] == e);
                        assert(s[m].directory != s[s.len() - 1].directory);
                    } else {
                        assert(e == x);
                        assert(s[s.len() - 1].directory != x.directory) by {
                            if s[s.len() - 1].directory == x.directory {
                                assert(has_directory(s, x.directory));
                            }
                        }
                    }
                }
            }
        }
    }
}

proof fn lemma_insert_sorted_sorted(s: Seq<ProfileDescriptorV>, x: ProfileDescriptorV)
    requires
        sorted_by_name(s),
    ensures
        sorted_by_name(insert_sorted(s, x)),
    decreases s.len(),
{
    let r = insert_sorted(s, x);
    if s.len() == 0 {
    } else if lex_le(s.last().display_name, x.display_name) {
        assert forall|i: int, j: int| 0 <= i < j < r.len() implies lex_le(
            r[i].display_name,
            r[j].display_name,
        ) by {
            if j == s.len() {
                if i < s.len() - 1 {
                    lemma_lex_le_trans(
                        s[i].display_name,
                        s.last().display_name,
                        x.display_name,
                    );
                }
            }
        }
    } else {
        let t = s.drop_last();
        assert(sorted_by_name(t)) by {
            assert(forall|i: int| 0 <= i < t.len() ==> t[i] == s[i]);
        }
        lemma_insert_sorted_sorted(t, x);
        lemma_insert_sorted_contains(t, x);
        let r0 = insert_sorted(t, x);
        lemma_lex_total(x.display_name, s.last().display_name);
        assert(lex_lt(x.display_name, s.last().display_name));
        assert forall|i: int, j: int| 0 <= i < j < r.len() implies lex_le(
            r[i].display_name,
            r[j].display_name,
        ) by {
            if j == r.len() - 1 {
                let e = r0[i];
                assert(r0.contains(e));
                if t.contains(e) {
                    let m = choose|m: int| 0 <= m < t.len() && t[m] == e;
                    assert(s[m] == e);
                    if m < s.len() - 1 {
                        assert(lex_le(s[m].display_name, s.last().display_name));
                    }
                } else {
                    assert(e == x);
                }
            } else {
                assert(r[i] == r0[i] && r[j] == r0[j]);
            }
        }
    }
}

/// What stable sorting does to the profile list: same elements, directories
/// still unique, ordered by display name.
pub proof fn lemma_sort_profiles_props(ps: Seq<ProfileDescriptorV>)
    ensures
        sort_profiles_spec(ps).len() == ps.len(),
        forall|e: ProfileDescriptorV|
            #[trigger] sort_profiles_spec(ps).contains(e) <==> ps.contains(e),
        dirs_no_dup(ps) ==> dirs_no_dup(sort_profiles_spec(ps)),
        sorted_by_name(sort_profiles_spec(ps)),
    decreases ps.len(),
{
    if ps.len() > 0 {
        let t = ps.drop_last();
        lemma_sort_profiles_props(t);
        let st = sort_profiles_spec(t);
        lemma_insert_sorted_contains(st, ps.last());
        lemma_insert_sorted_sorted(st, ps.last());
        assert forall|e: ProfileDescriptorV|
            #[trigger] sort_profiles_spec(ps).contains(e) <==> ps.contains(e) by {
            if sort_profiles_spec(ps).contains(e) {
                if st.contains(e) {
                    assert(t.contains(e));
                    let m = choose|m: int| 0 <= m < t.len() && t[m] == e;
                    assert(ps[m] == e);
                } else {
                    assert(ps[ps.len() - 1] == e);
                }
            }
            if ps.contains(e) {
                let m = choose|m: int| 0 <= m < ps.len() && ps[m] == e;
                if m < ps.len() - 1 {
                    assert(t[m] == e);
                    assert(t.contains(e));
                }
            }
        }
        if dirs_no_dup(ps) {
            assert(dirs_no_dup(t)) by {
                assert(forall|i: int| 0 <= i < t.len() ==> t[i] == s_at(ps, i));
            }
            assert(!has_directory(st, ps.last().directory)) by {
                if has_directory(st, ps.last().directory) {
                    let j = choose|j: int|
                        0 <= j < st.len() && st[j].directory == ps.last().directory;
                    assert(st.contains(st[j]));
                    assert(t.contains(st[j]));
                    let m = choose|m: int| 0 <= m < t.len() && t[m] == st[j];
                    assert(ps[m].directory == ps[ps.len() - 1].directory);
                }
            }
            lemma_insert_sorted_dirs(st, ps.last());
        }
    }
}

/// Helper naming `ps[i]` so quantified rewrites have a stable shape.
pub open spec fn s_at(ps: Seq<ProfileDescriptorV>, i: int) -> ProfileDescriptorV {
    ps[i]
}

/// Inserts `x` into `out` keeping display-name order, after equals.
fn insert_profile_sorted(out: &mut Vec<ProfileDescriptor>, x: ProfileDescriptor)
    ensures
        final(out).deep_view() == insert_sorted(old(out).deep_view(), x@),
{
    let ghost s = out.deep_view();
    let mut idx: usize = out.len();
    while idx > 0 && str_lt(x.display_name.as_str(), out[idx - 1].display_name.as_str())
        invariant
            0 <= idx <= out@.len(),
            s == out.deep_view(),
            forall|m: int| idx <= m < s.len() ==> lex_lt(x@.display_name, s_at(s, m).display_name),
        decreases idx,
    {
        assert(s_at(s, idx - 1) == out.deep_view()[idx - 1]);
        idx = idx - 1;
    }
    proof {
        if idx > 0 {
            assert(s_at(s, idx - 1) == out.deep_view()[idx - 1]);
            lemma_lex_total(s[idx - 1].display_name, x@.display_name);
        }
        lemma_insert_sorted_at(s, x@, idx as int);
    }
    out.insert(idx, x);
    assert(final(out).deep_view() =~= s.subrange(0, idx as int) + seq![x@] + s.subrange(
        idx as int,
        s.len() as int,
    ));
}

proof fn lemma_insert_sorted_at(s: Seq<ProfileDescriptorV>, x: ProfileDescriptorV, j: int)
    requires
        0 <= j <= s.len(),
        forall|m: int| j <= m < s.len() ==> lex_lt(x.display_name, s_at(s, m).display_name),
        j > 0 ==> lex_le(s[j - 1].display_name, x.display_name),
    ensures
        insert_sorted(s, x) == s.subrange(0, j) + seq![x] + s.subrange(j, s.len() as int),
    decreases s.len(),
{
    if s.len() == 0 {
        assert(insert_sorted(s, x) =~= s.subrange(0, 0) + seq![x] + s.subrange(0, 0));
    } else if lex_le(s.last().display_name, x.display_name) {
        assert(j == s.len()) by {
            if j < s.len() {
                assert(lex_lt(x.display_name, s_at(s, s.len() - 1).display_name));
                if s.last().display_name == x.display_name {
                    lemma_lex_lt_irrefl(x.display_name);
                } else {
                    lemma_lex_lt_asym(s.last().display_name, x.display_name);
                }
            }
        }
        assert(s.push(x) =~= s.subrange(0, j) + seq![x] + s.subrange(j, s.len() as int));
    } else {
        assert(lex_lt(x.display_name, s.last().display_name)) by {
            lemma_lex_total(x.display_name, s.last().display_name);
        }
        assert(j < s.len()) by {
            if j == s.len() {
                assert(lex_le(s[j - 1].display_name, x.display_name));
                assert(s[j - 1] == s.last());
                if s.last().display_name == x.display_name {
                    lemma_lex_lt_irrefl(x.display_name);
                } else {
                    lemma_lex_lt_asym(x.display_name, s.last().display_name);
                }
            }
        }
        let t = s.drop_last();
        assert(forall|m: int| j <= m < t.len() ==> t[m] == s_at(s, m));
        assert(forall|m: int| j <= m < t.len() ==> lex_lt(x.display_name, s_at(t, m).display_name));
        assert(j > 0 ==> lex_le(t[j - 1].display_name, x.display_name));
        lemma_insert_sorted_at(t, x, j);
        assert(insert_sorted(t, x).push(s.last()) =~= s.subrange(0, j) + seq![x] + s.subrange(
            j,
            s.len() as int,
        ));
    }
}

/// Whether some profile in `ps` already uses `dir`.
fn vec_has_directory(ps: &Vec<ProfileDescriptor>, dir: &str) -> (r: bool)
    ensures
        r == has_directory(ps.deep_view(), dir@),
{
    let mut i: usize = 0;
    while i < ps.len()
        invariant
            0 <= i <= ps@.len(),
            forall|m: int| 0 <= m < i ==> s_at(ps.deep_view(), m).directory != dir@,
        decreases ps@.len() - i,
    {
        if str_eq(ps[i].directory.as_str(), dir) {
            assert(ps.deep_view()[i as int].directory == dir@);
            return true;
        }
        assert(s_at(ps.deep_view(), i as int) == ps.deep_view()[i as int]);
        i = i + 1;
    }
    assert(!has_directory(ps.deep_view(), dir@)) by {
        if has_directory(ps.deep_view(), dir@) {
            let j = choose|j: int|
                0 <= j < ps.deep_view().len() && ps.deep_view()[j].directory == dir@;
            assert(s_at(ps.deep_view(), j).directory == dir@);
        }
    }
    false
}

impl Clone for ProfileDescriptor {
    fn clone(&self) -> (r: Self)
        ensures
            r@ == self@,
    {
        ProfileDescriptor {
            display_name: self.display_name.clone(),
            directory: self.directory.clone(),
        }
    }
}

/// One info-cache row: the entry key and the values of the five fields read
/// from it (`profile_dir`, `gaia_name`, `brave_sync_profile_name`,
/// `supervised_user_name`, `name`).
pub open spec fn row_directory(key: Seq<char>, vals: Seq<Option<Seq<char>>>) -> Seq<char> {
    match vals[0] {
        Some(d) => if d.len() > 0 {
            d
        } else {
            key
        },
        None => key,
    }
}

/// The first non-empty display-name candidate among fields 1..=4.
pub open spec fn first_nonempty_from(vals: Seq<Option<Seq<char>>>, i: int) -> Option<Seq<char>>
    decreases vals.len() - i,
{
    if i < 1 || i >= vals.len() {
        None
    } else {
        match vals[i] {
            Some(s) => if s.len() > 0 {
                Some(s)
            } else {
                first_nonempty_from(vals, i + 1)
            },
            None => first_nonempty_from(vals, i + 1),
        }
    }
}

/// The display name of one row: the name fields by priority, else "Default"
/// for the default entry, else the directory.
pub open spec fn row_display(key: Seq<char>, vals: Seq<Option<Seq<char>>>) -> Seq<char> {
    match first_nonempty_from(vals, 1) {
        Some(s) => s,
        None => if lower_seq(key) == "default"@ {
            "Default"@
        } else {
            row_directory(key, vals)
        },
    }
}

/// Folds info-cache rows into profiles, first occurrence of a directory
/// winning.
pub open spec fn rows_to_profiles(
    rows: Seq<(Seq<char>, Seq<Option<Seq<char>>>)>,
    i: int,
    acc: Seq<ProfileDescriptorV>,
) -> Seq<ProfileDescriptorV>
    decreases rows.len() - i,
{
    if i < 0 || i >= rows.len() {
        acc
    } else {
        let dir = row_directory(rows[i].0, rows[i].1);
        if has_directory(acc, dir) {
            rows_to_profiles(rows, i + 1, acc)
        } else {
            rows_to_profiles(
                rows,
                i + 1,
                acc.push(
                    ProfileDescriptorV {
                        display_name: row_display(rows[i].0, rows[i].1),
                        directory: dir,
                    },
                ),
            )
        }
    }
}

/// Appends a synthesized "Default" profile where none resolved to it.
pub open spec fn with_default(ps: Seq<ProfileDescriptorV>) -> Seq<ProfileDescriptorV> {
    if has_directory(ps, "Default"@) {
        ps
    } else {
        ps.push(ProfileDescriptorV { display_name: "Default"@, directory: "Default"@ })
    }
}

/// The profiles an info-cache table denotes: deduplicated by directory,
/// "Default" synthesized when missing, sorted by display name.
pub open spec fn chromium_profiles_spec(rows: Seq<(Seq<char>, Seq<Option<Seq<char>>>)>) -> Seq<
    ProfileDescriptorV,
> {
    sort_profiles_spec(with_default(rows_to_profiles(rows, 0, Seq::empty())))
}

/// The path components leading to the info cache in a `Local State` file.
pub open spec fn chrome_path_spec() -> Seq<Seq<char>> {
    seq!["profile"@, "info_cache"@]
}

/// The info-cache fields discovery reads, in display-name priority order
/// after the leading `profile_dir`.
pub open spec fn chrome_fields_spec() -> Seq<Seq<char>> {
    seq![
        "profile_dir"@,
        "gaia_name"@,
        "brave_sync_profile_name"@,
        "supervised_user_name"@,
        "name"@,
    ]
}

/// The kinds whose profiles live in a Chromium `Local State` file.
pub open spec fn chromium_kind(kind: Browsers) -> bool {
    kind == Browsers::Chrome || kind == Browsers::Edge || kind == Browsers::Brave
}

/// What Chromium-family discovery yields for a kind and the text of its
/// `Local State` file (`None` where the file or its directory is absent):
/// an empty list for non-Chromium kinds and absent files, an error for a
/// present file without the expected structure, else the profiles.
pub open spec fn get_chrome_profiles_spec(kind: Browsers, contents: Option<Seq<char>>) -> Result<
    Seq<ProfileDescriptorV>,
    DiscoveryError,
> {
    if !chromium_kind(kind) {
        Ok(Seq::empty())
    } else {
        match contents {
            None => Ok(Seq::empty()),
            Some(c) => match json_string_table_of(c, chrome_path_spec(), chrome_fields_spec()) {
                None => Err(DiscoveryError::MalformedLocalState),
                Some(rows) => Ok(chromium_profiles_spec(rows)),
            },
        }
    }
}

/// Discovers the profiles of a Chromium-family browser from the text of its
/// `Local State` file.
pub fn get_chrome_profiles(kind: Browsers, local_state: Option<&str>) -> (r: Result<
    Vec<ProfileDescriptor>,
    DiscoveryError,
>)
    ensures
        r is Ok <==> get_chrome_profiles_spec(kind, local_state.deep_view()) is Ok,
        r matches Ok(v) ==> v.deep_view() == get_chrome_profiles_spec(
            kind,
            local_state.deep_view(),
        )->Ok_0,
        r matches Err(e) ==> e == get_chrome_profiles_spec(kind, local_state.deep_view())->Err_0,
{
    let empty_ok: bool = match kind {
        Browsers::Chrome | Browsers::Edge | Browsers::Brave => false,
        _ => true,
    };
    if empty_ok {
        let v: Vec<ProfileDescriptor> = Vec::new();
        assert(v.deep_view() =~= Seq::<ProfileDescriptorV>::empty());
        return Ok(v);
    }
    let contents = match local_state {
        Some(c) => c,
        None => {
            let v: Vec<ProfileDescriptor> = Vec::new();
            assert(v.deep_view() =~= Seq::<ProfileDescriptorV>::empty());
            return Ok(v);
        },
    };
    let mut path: Vec<String> = Vec::new();
    path.push("profile".to_owned());
    path.push("info_cache".to_owned());
    assert(path.deep_view() =~= chrome_path_spec());
    let mut fields: Vec<String> = Vec::new();
    fields.push("profile_dir".to_owned());
    fields.push("gaia_name".to_owned());
    fields.push("brave_sync_profile_name".to_owned());
    fields.push("supervised_user_name".to_owned());
    fields.push("name".to_owned());
    assert(fields.deep_view() =~= chrome_fields_spec());
    let rows = match json_string_table(contents, &path, &fields) {
        Some(rows) => rows,
        None => {
            return Err(DiscoveryError::MalformedLocalState);
        },
    };
    let ghost rowsv = rows.deep_view();
    let mut profiles: Vec<ProfileDescriptor> = Vec::new();
    let mut i: usize = 0;
    assert(profiles.deep_view() =~= Seq::<ProfileDescriptorV>::empty());
    while i < rows.len()
        invariant
            0 <= i <= rows@.len(),
            rowsv == rows.deep_view(),
            forall|m: int| 0 <= m < rowsv.len() ==> (#[trigger] rowsv[m]).1.len() == 5,
            rows_to_profiles(rowsv, i as int, profiles.deep_view()) == rows_to_profiles(
                rowsv,
                0,
                Seq::empty(),
            ),
        decreases rows@.len() - i,
    {
        let row = &rows[i];
        assert(rowsv[i as int] == (row.0@, row.1.deep_view()));
        let ghost vals = rowsv[i as int].1;
        assert(vals.len() == 5);
        let directory: String = match &row.1[0] {
            Some(d) => {
                if d.as_str().unicode_len() > 0 {
                    d.clone()
                } else {
                    row.0.clone()
                }
            },
            None => row.0.clone(),
        };
        assert(directory@ == row_directory(rowsv[i as int].0, vals));
        let mut display: Option<String> = None;
        if let Some(s) = &row.1[1] {
            if s.as_str().unicode_len() > 0 {
                display = Some(s.clone());
            }
        }
        if display.is_none() {
            if let Some(s) = &row.1[2] {
                if s.as_str().unicode_len() > 0 {
                    display = Some(s.clone());
                }
            }
        }
        if display.is_none() {
            if let Some(s) = &row.1[3] {
                if s.as_str().unicode_len() > 0 {
                    display = Some(s.clone());
                }
            }
        }
        if display.is_none() {
            if let Some(s) = &row.1[4] {
                if s.as_str().unicode_len() > 0 {
                    display = Some(s.clone());
                }
            }
        }
        let display: String = match display {
            Some(s) => {
                assert(first_nonempty_from(vals, 1) == Some(s@));
                s
            },
            None => {
                assert(first_nonempty_from(vals, 1) is None) by {
                    assert(first_nonempty_from(vals, 5) is None);
                    assert(first_nonempty_from(vals, 4) is None);
                    assert(first_nonempty_from(vals, 3) is None);
                    assert(first_nonempty_from(vals, 2) is None);
                }
                let keylower = lower_string(row.0.as_str());
                if str_eq(keylower.as_str(), "default") {
                    "Default".to_owned()
                } else {
                    directory.clone()
                }
            },
        };
        assert(display@ == row_display(rowsv[i as int].0, vals));
        if !vec_has_directory(&profiles, directory.as_str()) {
            let ghost sofar = profiles.deep_view();
            profiles.push(ProfileDescriptor { display_name: display, directory });
            assert(profiles.deep_view() =~= sofar.push(
                ProfileDescriptorV {
                    display_name: row_display(rowsv[i as int].0, vals),
                    directory: row_directory(rowsv[i as int].0, vals),
                },
            ));
        }
        i = i + 1;
    }
    assert(profiles.deep_view() == rows_to_profiles(rowsv, 0, Seq::empty()));
    if !vec_has_directory(&profiles, "Default") {
        let ghost sofar = profiles.deep_view();
        profiles.push(
            ProfileDescriptor { display_name: "Default".to_owned(), directory: "Default".to_owned() },
        );
        assert(profiles.deep_view() =~= sofar.push(
            ProfileDescriptorV { display_name: "Default"@, directory: "Default"@ },
        ));
    }
    assert(profiles.deep_view() == with_default(rows_to_profiles(rowsv, 0, Seq::empty())));
    Ok(sort_profiles(profiles))
}

/// Sorts profiles by display name, stably.
fn sort_profiles(ps: Vec<ProfileDescriptor>) -> (r: Vec<ProfileDescriptor>)
    ensures
        r.deep_view() == sort_profiles_spec(ps.deep_view()),
{
    let ghost psv = ps.deep_view();
    let mut out: Vec<ProfileDescriptor> = Vec::new();
    let mut i: usize = 0;
    assert(out.deep_view() =~= sort_profiles_spec(psv.take(0)));
    while i < ps.len()
        invariant
            0 <= i <= ps@.len(),
            psv == ps.deep_view(),
            out.deep_view() == sort_profiles_spec(psv.take(i as int)),
        decreases ps@.len() - i,
    {
        insert_profile_sorted(&mut out, ps[i].clone());
        proof {
            assert(psv.take(i + 1).drop_last() =~= psv.take(i as int));
            assert(psv.take(i + 1).last() == psv[i as int]);
        }
        i = i + 1;
    }
    assert(psv.take(psv.len() as int) =~= psv);
    out
}

proof fn lemma_rows_to_profiles_no_dup(
    rows: Seq<(Seq<char>, Seq<Option<Seq<char>>>)>,
    i: int,
    acc: Seq<ProfileDescriptorV>,
)
    requires
        dirs_no_dup(acc),
    ensures
        dirs_no_dup(rows_to_profiles(rows, i, acc)),
    decreases rows.len() - i,
{
    if 0 <= i < rows.len() {
        let dir = row_directory(rows[i].0, rows[i].1);
        if has_directory(acc, dir) {
            lemma_rows_to_profiles_no_dup(rows, i + 1, acc);
        } else {
            let pd = ProfileDescriptorV { display_name: row_display(rows[i].0, rows[i].1),
                directory: dir };
            let grown = acc.push(pd);
            assert(dirs_no_dup(grown)) by {
                assert forall|a: int, b: int|
                    0 <= a < grown.len() && 0 <= b < grown.len() && a != b implies grown[a].directory
                    != grown[b].directory by {
                    if a < acc.len() && b < acc.len() {
                    } else {
                        let k = if a < acc.len() {
                            a
                        } else {
                            b
                        };
                        assert(grown[k] == acc[k]);
                        if acc[k].directory == dir {
                            assert(has_directory(acc, dir));
                        }
                    }
                }
            }
            lemma_rows_to_profiles_no_dup(rows, i + 1, grown);
        }
    }
}

/// Law: Chromium profile discovery yields at most one profile per directory,
/// always includes one with directory "Default", and is sorted by display
/// name, whatever the info-cache rows hold.
pub proof fn lemma_chromium_profiles_props(rows: Seq<(Seq<char>, Seq<Option<Seq<char>>>)>)
    ensures
        dirs_no_dup(chromium_profiles_spec(rows)),
        has_directory(chromium_profiles_spec(rows), "Default"@),
        sorted_by_name(chromium_profiles_spec(rows)),
{
    let base = rows_to_profiles(rows, 0, Seq::empty());
    lemma_rows_to_profiles_no_dup(rows, 0, Seq::empty());
    let wd = with_default(base);
    assert(dirs_no_dup(wd) && has_directory(wd, "Default"@)) by {
        if !has_directory(base, "Default"@) {
            let pd = ProfileDescriptorV { display_name: "Default"@, directory: "Default"@ };
            let grown = base.push(pd);
            assert(grown[grown.len() - 1].directory == "Default"@);
            assert forall|a: int, b: int|
                0 <= a < grown.len() && 0 <= b < grown.len() && a != b implies grown[a].directory
                != grown[b].directory by {
                if a < base.len() && b < base.len() {
                } else {
                    let k = if a < base.len() {
                        a
                    } else {
                        b
                    };
                    assert(grown[k] == base[k]);
                    if base[k].directory == "Default"@ {
                        assert(has_directory(base, "Default"@));
                    }
                }
            }
        } else {
            let j = choose|j: int| 0 <= j < base.len() && base[j].directory == "Default"@;
            assert(wd[j].directory == "Default"@);
        }
    }
    lemma_sort_profiles_props(wd);
    let j = choose|j: int| 0 <= j < wd.len() && wd[j].directory == "Default"@;
    assert(wd.contains(wd[j]));
    assert(sort_profiles_spec(wd).contains(wd[j]));
    let k = choose|k: int|
        0 <= k < sort_profiles_spec(wd).len() && sort_profiles_spec(wd)[k] == wd[j];
    assert(sort_profiles_spec(wd)[k].directory == "Default"@);
}

/// One file-system entry under the Firefox profiles root.
#[derive(Debug)]
pub struct FsEntry {
    pub name: String,
    pub is_dir: bool,
}

/// The mathematical value of an `FsEntry`.
pub struct FsEntryV {
    pub name: Seq<char>,
    pub is_dir: bool,
}

impl View for FsEntry {
    type V = FsEntryV;

    open spec fn view(&self) -> FsEntryV {
        FsEntryV { name: self.name@, is_dir: self.is_dir }
    }
}

impl DeepView for FsEntry {
    type V = FsEntryV;

    open spec fn deep_view(&self) -> FsEntryV {
        self@
    }
}

/// Folds directory entries into profiles: one per directory, named by it.
pub open spec fn dir_profiles(entries: Seq<FsEntryV>, i: int, acc: Seq<ProfileDescriptorV>) -> Seq<
    ProfileDescriptorV,
>
    decreases entries.len() - i,
{
    if i < 0 || i >= entries.len() {
        acc
    } else if entries[i].is_dir {
        dir_profiles(
            entries,
            i + 1,
            acc.push(
                ProfileDescriptorV { display_name: entries[i].name, directory: entries[i].name },
            ),
        )
    } else {
        dir_profiles(entries, i + 1, acc)
    }
}

/// The profiles a Firefox profiles-root listing denotes: one per immediate
/// subdirectory, its name both display name and key, sorted by display name.
pub open spec fn firefox_profiles_spec(entries: Seq<FsEntryV>) -> Seq<ProfileDescriptorV> {
    sort_profiles_spec(dir_profiles(entries, 0, Seq::empty()))
}

/// Discovers Firefox profiles from a listing of the profiles root.
pub fn get_firefox_profiles(entries: &Vec<FsEntry>) -> (r: Vec<ProfileDescriptor>)
    ensures
        r.deep_view() == firefox_profiles_spec(entries.deep_view()),
{
    let ghost ev = entries.deep_view();
    let mut profiles: Vec<ProfileDescriptor> = Vec::new();
    let mut i: usize = 0;
    assert(profiles.deep_view() =~= Seq::<ProfileDescriptorV>::empty());
    while i < entries.len()
        invariant
            0 <= i <= entries@.len(),
            ev == entries.deep_view(),
            dir_profiles(ev, i as int, profiles.deep_view()) == dir_profiles(ev, 0, Seq::empty()),
        decreases entries@.len() - i,
    {
        assert(ev[i as int] == entries.deep_view()[i as int]);
        if entries[i].is_dir {
            let ghost sofar = profiles.deep_view();
            let name = entries[i].name.clone();
            profiles.push(ProfileDescriptor { display_name: name.clone(), directory: name });
            assert(profiles.deep_view() =~= sofar.push(
                ProfileDescriptorV {
                    display_name: ev[i as int].name,
                    directory: ev[i as int].name,
                },
            ));
        }
        i = i + 1;
    }
    assert(profiles.deep_view() == dir_profiles(ev, 0, Seq::empty()));
    sort_profiles(profiles)
}

/// Law: Firefox discovery yields exactly the directory entries, each with
/// its name as both display name and key, and no others; the result is
/// sorted by display name.
pub proof fn lemma_firefox_profiles_props(entries: Seq<FsEntryV>)
    ensures
        sorted_by_name(firefox_profiles_spec(entries)),
        forall|p: ProfileDescriptorV|
            #[trigger] firefox_profiles_spec(entries).contains(p) <==> (exists|j: int|
                0 <= j < entries.len() && (#[trigger] entries[j]).is_dir && p
                    == ProfileDescriptorV {
                    display_name: entries[j].name,
                    directory: entries[j].name,
                }),
{
    let base = dir_profiles(entries, 0, Seq::empty());
    lemma_sort_profiles_props(base);
    assert forall|p: ProfileDescriptorV| #[trigger] base.contains(p) <==> (exists|j: int|
        0 <= j < entries.len() && (#[trigger] entries[j]).is_dir && p == ProfileDescriptorV {
            display_name: entries[j].name,
            directory: entries[j].name,
        }) by {
        lemma_dir_profiles_contains(entries, 0, Seq::empty(), p);
    }
}

proof fn lemma_dir_profiles_contains(
    entries: Seq<FsEntryV>,
    i: int,
    acc: Seq<ProfileDescriptorV>,
    p: ProfileDescriptorV,
)
    requires
        0 <= i,
    ensures
        dir_profiles(entries, i, acc).contains(p) <==> (acc.contains(p) || exists|j: int|
            i <= j < entries.len() && (#[trigger] entries[j]).is_dir && p == ProfileDescriptorV {
                display_name: entries[j].name,
                directory: entries[j].name,
            }),
    decreases entries.len() - i,
{
    if 0 <= i < entries.len() {
        if entries[i].is_dir {
            let pd = ProfileDescriptorV {
                display_name: entries[i].name,
                directory: entries[i].name,
            };
            let grown = acc.push(pd);
            lemma_dir_profiles_contains(entries, i + 1, grown, p);
            assert(grown.contains(p) <==> (acc.contains(p) || p == pd)) by {
                if grown.contains(p) {
                    let m = choose|m: int| 0 <= m < grown.len() && grown[m] == p;
                    if m < acc.len() {
                        assert(acc[m] == p);
                    }
                }
                if acc.contains(p) {
                    let m = choose|m: int| 0 <= m < acc.len() && acc[m] == p;
                    assert(grown[m] == p);
                }
                if p == pd {
                    assert(grown[acc.len() as int] == p);
                }
            }
            if exists|j: int|
                i + 1 <= j < entries.len() && (#[trigger] entries[j]).is_dir && p
                    == (ProfileDescriptorV {
                    display_name: entries[j].name,
                    directory: entries[j].name,
                }) {
                let j = choose|j: int|
                    i + 1 <= j < entries.len() && (#[trigger] entries[j]).is_dir && p
                        == (ProfileDescriptorV {
                        display_name: entries[j].name,
                        directory: entries[j].name,
                    });
                assert(i <= j < entries.len() && (#[trigger] entries[j]).is_dir && p
                    == (ProfileDescriptorV {
                    display_name: entries[j].name,
                    directory: entries[j].name,
                }));
            }
            if p == pd {
                assert(i <= i < entries.len() && (#[trigger] entries[i]).is_dir && p
                    == ProfileDescriptorV {
                    display_name: entries[i].name,
                    directory: entries[i].name,
                });
            }
            if exists|j: int|
                i <= j < entries.len() && (#[trigger] entries[j]).is_dir && p
                    == (ProfileDescriptorV {
                    display_name: entries[j].name,
                    directory: entries[j].name,
                }) {
                let j = choose|j: int|
                    i <= j < entries.len() && (#[trigger] entries[j]).is_dir && p
                        == (ProfileDescriptorV {
                        display_name: entries[j].name,
                        directory: entries[j].name,
                    });
                if j == i {
                    assert(p == pd);
                } else {
                    assert(i + 1 <= j < entries.len() && (#[trigger] entries[j]).is_dir && p
                        == ProfileDescriptorV {
                        display_name: entries[j].name,
                        directory: entries[j].name,
                    });
                }
            }
        } else {
            lemma_dir_profiles_contains(entries, i + 1, acc, p);
            if exists|j: int|
                i + 1 <= j < entries.len() && (#[trigger] entries[j]).is_dir && p
                    == (ProfileDescriptorV {
                    display_name: entries[j].name,
                    directory: entries[j].name,
                }) {
                let j = choose|j: int|
                    i + 1 <= j < entries.len() && (#[trigger] entries[j]).is_dir && p
                        == (ProfileDescriptorV {
                        display_name: entries[j].name,
                        directory: entries[j].name,
                    });
                assert(i <= j < entries.len() && (#[trigger] entries[j]).is_dir && p
                    == (ProfileDescriptorV {
                    display_name: entries[j].name,
                    directory: entries[j].name,
                }));
            }
            if exists|j: int|
                i <= j < entries.len() && (#[trigger] entries[j]).is_dir && p
                    == (ProfileDescriptorV {
                    display_name: entries[j].name,
                    directory: entries[j].name,
                }) {
                let j = choose|j: int|
                    i <= j < entries.len() && (#[trigger] entries[j]).is_dir && p
                        == (ProfileDescriptorV {
                        display_name: entries[j].name,
                        directory: entries[j].name,
                    });
                assert(j != i);
            }
        }
    } else {
        if i >= entries.len() {
            assert(!(exists|j: int|
                i <= j < entries.len() && (#[trigger] entries[j]).is_dir)) by {
                if exists|j: int| i <= j < entries.len() && (#[trigger] entries[j]).is_dir {
                    let j = choose|j: int| i <= j < entries.len() && (#[trigger] entries[j]).is_dir;
                }
            }
        }
    }
}

/// The relative path from the per-OS base directory to a Chromium-family
/// browser's `Local State` file, or `None` for other kinds or OSes.
pub open spec fn chrome_local_state_path_spec(kind: Browsers, os: OsKind) -> Option<Seq<char>> {
    match kind {
        Browsers::Chrome => match os {
            OsKind::Windows => Some("Google\\Chrome\\User Data\\Local State"@),
            OsKind::Macos => Some("Google/Chrome/Local State"@),
            OsKind::Linux => Some("google-chrome/Local State"@),
            OsKind::Other => None,
        },
        Browsers::Edge => match os {
            OsKind::Windows => Some("Microsoft\\Edge\\User Data\\Local State"@),
            OsKind::Macos => Some("Microsoft/Edge/Local State"@),
            OsKind::Linux => Some("microsoft-edge/Local State"@),
            OsKind::Other => None,
        },
        Browsers::Brave => match os {
            OsKind::Windows => Some("BraveSoftware\\Brave-Browser\\User Data\\Local State"@),
            OsKind::Macos => Some("BraveSoftware/Brave-Browser/Local State"@),
            OsKind::Linux => Some("brave/Local State"@),
            OsKind::Other => None,
        },
        _ => None,
    }
}

/// The relative `Local State` path for a kind on an OS.
pub fn chrome_local_state_path(kind: Browsers, os: OsKind) -> (r: Option<String>)
    ensures
        r.deep_view() == chrome_local_state_path_spec(kind, os),
{
    match kind {
        Browsers::Chrome => match os {
            OsKind::Windows => Some("Google\\Chrome\\User Data\\Local State".to_owned()),
            OsKind::Macos => Some("Google/Chrome/Local State".to_owned()),
            OsKind::Linux => Some("google-chrome/Local State".to_owned()),
            OsKind::Other => None,
        },
        Browsers::Edge => match os {
            OsKind::Windows => Some("Microsoft\\Edge\\User Data\\Local State".to_owned()),
            OsKind::Macos => Some("Microsoft/Edge/Local State".to_owned()),
            OsKind::Linux => Some("microsoft-edge/Local State".to_owned()),
            OsKind::Other => None,
        },
        Browsers::Brave => match os {
            OsKind::Windows => Some(
                "BraveSoftware\\Brave-Browser\\User Data\\Local State".to_owned(),
            ),
            OsKind::Macos => Some("BraveSoftware/Brave-Browser/Local State".to_owned()),
            OsKind::Linux => Some("brave/Local State".to_owned()),
            OsKind::Other => None,
        },
        _ => None,
    }
}

/// Names of the browsers installed on this machine, as the browser registry
/// crate reports them.  Host state: nothing more is promised.
pub fn get_browsers() -> Vec<String> {
    let browsers = existing_browsers();
    let mut names: Vec<String> = Vec::new();
    let mut i: usize = 0;
    while i < browsers.len()
        decreases browsers@.len() - i,
    {
        names.push(browser_name(&browsers[i]));
        i = i + 1;
    }
    names
}


/// Every whitespace character in `s` is a plain space.
pub open spec fn only_space_ws(s: Seq<char>) -> bool {
    forall|m: int| 0 <= m < s.len() ==> (is_ws(#[trigger] s[m]) ==> s[m] == ' ')
}

/// Lower-casing changes neither whitespace-ness nor separator-ness.
proof fn lemma_lower_char_class(c: char)
    ensures
        is_ws(lower_char(c)) == is_ws(c),
        is_sep(lower_char(c)) == is_sep(c),
        lower_char(lower_char(c)) == lower_char(c),
{
}

proof fn lemma_lower_subrange_tail(s: Seq<char>)
    requires
        s.len() > 0,
    ensures
        lower_seq(s).subrange(1, s.len() as int) =~= lower_seq(s.subrange(1, s.len() as int)),
{
}

proof fn lemma_trim_start_lower(s: Seq<char>)
    ensures
        trim_start_if(lower_seq(s), |c: char| is_ws(c)) == lower_seq(
            trim_start_if(s, |c: char| is_ws(c)),
        ),
    decreases s.len(),
{
    let p = |c: char| is_ws(c);
    if s.len() != 0 {
        lemma_lower_char_class(s[0]);
        assert(lower_seq(s)[0] == lower_char(s[0]));
        if is_ws(s[0]) {
            lemma_lower_subrange_tail(s);
            lemma_trim_start_lower(s.subrange(1, s.len() as int));
        }
    }
}

proof fn lemma_trim_end_lower(s: Seq<char>)
    ensures
        trim_end_if(lower_seq(s), |c: char| is_ws(c)) == lower_seq(
            trim_end_if(s, |c: char| is_ws(c)),
        ),
    decreases s.len(),
{
    let p = |c: char| is_ws(c);
    if s.len() != 0 {
        lemma_lower_char_class(s[s.len() - 1]);
        assert(lower_seq(s)[s.len() - 1] == lower_char(s[s.len() - 1]));
        if is_ws(s[s.len() - 1]) {
            assert(lower_seq(s).take(s.len() - 1) =~= lower_seq(s.take(s.len() - 1)));
            lemma_trim_end_lower(s.take(s.len() - 1));
        }
    }
}

proof fn lemma_lower_idem(s: Seq<char>)
    ensures
        lower_seq(lower_seq(s)) =~= lower_seq(s),
{
    assert forall|m: int| 0 <= m < s.len() implies lower_seq(lower_seq(s))[m] == lower_seq(s)[m]
        by {
        lemma_lower_char_class(s[m]);
    }
}

/// Law: browser-kind parsing is case-insensitive — lower-casing the input
/// never changes the parsed kind.
pub proof fn lemma_parse_browser_kind_case_insensitive(s: Seq<char>)
    ensures
        parse_browser_kind_spec(lower_seq(s)) == parse_browser_kind_spec(s),
{
    lemma_trim_start_lower(s);
    lemma_trim_end_lower(trim_start_if(s, |c: char| is_ws(c)));
    lemma_lower_idem(trim_spec(s));
}

proof fn lemma_strip_sep_concat(a: Seq<char>, b: Seq<char>)
    ensures
        strip_sep(a + b) == strip_sep(a) + strip_sep(b),
    decreases b.len(),
{
    if b.len() == 0 {
        assert(a + b =~= a);
        assert(strip_sep(a) + strip_sep(b) =~= strip_sep(a));
    } else {
        assert((a + b).drop_last() =~= a + b.drop_last());
        assert((a + b).last() == b.last());
        lemma_strip_sep_concat(a, b.drop_last());
        if is_sep(b.last()) {
        } else {
            assert((strip_sep(a) + strip_sep(b.drop_last())).push(b.last()) =~= strip_sep(a)
                + strip_sep(b.drop_last()).push(b.last()));
        }
    }
}

proof fn lemma_strip_sep_elems(s: Seq<char>)
    ensures
        forall|m: int| 0 <= m < strip_sep(s).len() ==> !is_sep(#[trigger] strip_sep(s)[m]),
        forall|m: int| 0 <= m < strip_sep(s).len() ==> s.contains(#[trigger] strip_sep(s)[m]),
    decreases s.len(),
{
    if s.len() != 0 {
        lemma_strip_sep_elems(s.drop_last());
        let r0 = strip_sep(s.drop_last());
        assert forall|m: int| 0 <= m < strip_sep(s).len() implies !is_sep(
            #[trigger] strip_sep(s)[m],
        ) && s.contains(strip_sep(s)[m]) by {
            if is_sep(s.last()) {
                assert(strip_sep(s)[m] == r0[m]);
                assert(s.drop_last().contains(r0[m]));
                let k = choose|k: int| 0 <= k < s.drop_last().len() && s.drop_last()[k] == r0[m];
                assert(s[k] == r0[m]);
            } else {
                if m < r0.len() {
                    assert(strip_sep(s)[m] == r0[m]);
                    assert(s.drop_last().contains(r0[m]));
                    let k = choose|k: int|
                        0 <= k < s.drop_last().len() && s.drop_last()[k] == r0[m];
                    assert(s[k] == r0[m]);
                } else {
                    assert(strip_sep(s)[m] == s.last());
                    assert(s[s.len() - 1] == s.last());
                }
            }
        }
    }
}

proof fn lemma_strip_sep_no_sep_fixed(s: Seq<char>)
    requires
        forall|m: int| 0 <= m < s.len() ==> !is_sep(s[m]),
    ensures
        strip_sep(s) == s,
    decreases s.len(),
{
    if s.len() != 0 {
        assert(!is_sep(s.last()));
        lemma_strip_sep_no_sep_fixed(s.drop_last());
        assert(s.drop_last().push(s.last()) =~= s);
    }
}

proof fn lemma_strip_lower_commute(s: Seq<char>)
    ensures
        strip_sep(lower_seq(s)) == lower_seq(strip_sep(s)),
    decreases s.len(),
{
    if s.len() != 0 {
        lemma_strip_lower_commute(s.drop_last());
        lemma_lower_char_class(s.last());
        assert(lower_seq(s).drop_last() =~= lower_seq(s.drop_last()));
        assert(lower_seq(s).last() == lower_char(s.last()));
        if is_sep(s.last()) {
        } else {
            assert(lower_seq(strip_sep(s.drop_last())).push(lower_char(s.last())) =~= lower_seq(
                strip_sep(s.drop_last()).push(s.last()),
            ));
        }
    }
}

proof fn lemma_strip_trim_start_space(s: Seq<char>)
    requires
        only_space_ws(s),
    ensures
        strip_sep(trim_start_if(s, |c: char| is_ws(c))) == strip_sep(s),
    decreases s.len(),
{
    if s.len() != 0 && is_ws(s[0]) {
        let tail = s.subrange(1, s.len() as int);
        lemma_strip_trim_start_space(tail);
        assert(s =~= seq![s[0]] + tail);
        lemma_strip_sep_concat(seq![s[0]], tail);
        assert(strip_sep(seq![s[0]]) =~= Seq::<char>::empty()) by {
            assert(strip_sep(Seq::<char>::empty()) =~= Seq::<char>::empty());
            assert(seq![s[0]].drop_last() =~= Seq::<char>::empty());
            assert(is_sep(seq![s[0]].last()));
        }
        assert(strip_sep(s) =~= strip_sep(tail));
    }
}

proof fn lemma_strip_trim_end_space(s: Seq<char>)
    requires
        only_space_ws(s),
    ensures
        strip_sep(trim_end_if(s, |c: char| is_ws(c))) == strip_sep(s),
    decreases s.len(),
{
    if s.len() != 0 && is_ws(s[s.len() - 1]) {
        let front = s.take(s.len() - 1);
        lemma_strip_trim_end_space(front);
        assert(strip_sep(s) == strip_sep(front)) by {
            assert(s.drop_last() =~= front);
            assert(is_sep(s.last()));
        }
    }
}

/// Law: browser-kind parsing ignores spaces and hyphens wherever they
/// stand — removing them all never changes the parsed kind — for names
/// whose whitespace is plain spaces.  (A name such as "-\ta" separates
/// a hyphen from the trimmed end by a tab, and normalizes differently once
/// the hyphen is gone, so other whitespace is left out here.)
pub proof fn lemma_parse_browser_kind_separator_insensitive(s: Seq<char>)
    requires
        only_space_ws(s),
    ensures
        parse_browser_kind_spec(strip_sep(s)) == parse_browser_kind_spec(s),
{
    let p = |c: char| is_ws(c);
    let x = strip_sep(s);
    lemma_strip_sep_elems(s);
    assert(forall|m: int| 0 <= m < x.len() ==> !is_ws(#[trigger] x[m])) by {
        assert forall|m: int| 0 <= m < x.len() implies !is_ws(#[trigger] x[m]) by {
            if is_ws(x[m]) {
                let k = choose|k: int| 0 <= k < s.len() && s[k] == x[m];
                assert(x[m] == ' ');
                assert(!is_sep(x[m]));
            }
        }
    }
    lemma_trim_start_if_at(x, p, 0);
    lemma_trim_end_if_at(trim_start_if(x, p), p, x.len() as int);
    assert(trim_spec(x) == x) by {
        assert(x.subrange(0, x.len() as int) =~= x);
    }
    // norm(strip_sep(s)) reduces to strip_sep(lower_seq(s)).
    lemma_strip_lower_commute(x);
    lemma_strip_lower_commute(s);
    lemma_strip_sep_elems(lower_seq(s));
    lemma_strip_sep_no_sep_fixed(strip_sep(lower_seq(s)));
    assert(norm_spec(strip_sep(s)) == strip_sep(lower_seq(s)));
    // norm(s) reduces to the same thing.
    let ts = trim_start_if(s, p);
    lemma_ws_subset_trim_start(s);
    lemma_strip_trim_end_space(ts);
    lemma_strip_trim_start_space(s);
    lemma_strip_lower_commute(trim_spec(s));
    assert(lower_seq(strip_sep(trim_spec(s))) == lower_seq(strip_sep(s)));
    assert(norm_spec(s) == strip_sep(lower_seq(s)));
}

/// Law: the parsed kind depends only on a name's normal form — parsing the
/// trimmed, lower-cased, separator-free text gives the same kind as parsing
/// the name itself — for names whose whitespace is plain spaces.  (For
/// "-\tchrome", dropping the hyphen exposes a tab that then trims away, so
/// the normal form of the normal form differs; other whitespace is left out
/// here for that reason.)
pub proof fn lemma_parse_browser_kind_normal_form(s: Seq<char>)
    requires
        only_space_ws(s),
    ensures
        parse_browser_kind_spec(norm_spec(s)) == parse_browser_kind_spec(s),
{
    let p = |c: char| is_ws(c);
    let n = norm_spec(s);
    // Under space-only whitespace, the normal form is strip_sep(lower(s)).
    let ts = trim_start_if(s, p);
    lemma_ws_subset_trim_start(s);
    lemma_strip_trim_end_space(ts);
    lemma_strip_trim_start_space(s);
    lemma_strip_lower_commute(trim_spec(s));
    lemma_strip_lower_commute(s);
    assert(lower_seq(strip_sep(trim_spec(s))) == lower_seq(strip_sep(s)));
    assert(n == strip_sep(lower_seq(s)));
    // The normal form holds no separator and no whitespace at all.
    lemma_strip_sep_elems(lower_seq(s));
    assert forall|m: int| 0 <= m < n.len() implies !is_ws(#[trigger] n[m]) by {
        if is_ws(n[m]) {
            let k = choose|k: int| 0 <= k < lower_seq(s).len() && lower_seq(s)[k] == n[m];
            assert(lower_seq(s)[k] == lower_char(s[k]));
            lemma_lower_char_class(s[k]);
            assert(s[k] == ' ');
            assert(!is_sep(n[m]));
        }
    }
    // So trimming, lower-casing and separator-stripping all fix it.
    lemma_trim_start_if_at(n, p, 0);
    lemma_trim_end_if_at(trim_start_if(n, p), p, n.len() as int);
    assert(trim_spec(n) == n) by {
        assert(n.subrange(0, n.len() as int) =~= n);
    }
    lemma_strip_lower_commute(lower_seq(s));
    lemma_lower_idem(lower_seq(s));
    assert(lower_seq(n) == n);
    lemma_strip_sep_no_sep_fixed(n);
    assert(norm_spec(n) == n);
}

proof fn lemma_ws_subset_trim_start(s: Seq<char>)
    requires
        only_space_ws(s),
    ensures
        only_space_ws(trim_start_if(s, |c: char| is_ws(c))),
    decreases s.len(),
{
    if s.len() != 0 && is_ws(s[0]) {
        let tail = s.subrange(1, s.len() as int);
        lemma_ws_subset_trim_start(tail);
    }
}

} // verus!
