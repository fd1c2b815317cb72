//! The looser, containment-based browser probe.
//!
//! This older flavor of discovery matches browser names by substring
//! containment, reads only `gaia_name` and `name` from the info cache, keys
//! profiles by the cache key alone, and keeps only profiles whose directory
//! actually exists.  Firefox profiles come from parsing `profiles.ini`.

use vstd::prelude::*;
use crate::jsontext::{json_string_table, json_string_table_of};
use crate::link::{find_char, first_index_of};
use crate::text::{
    contains_seq, contains_sub, lower_seq, lower_string, starts_with_spec, starts_with_sub,
    str_eq, trim_spec, trim_chars,
};

verus! {

/// A browser family recognized by substring matching.
#[derive(Debug, Clone, Copy, PartialEq, Eq, Structural)]
pub enum BrowserKind {
    Chrome,
    Firefox,
    Edge,
    Brave,
    Opera,
    Vivaldi,
    Unknown,
}

/// One probed profile: the cache key (or ini path) and where it lives.
#[derive(Debug)]
pub struct BrowserProfile {
    pub name: String,
    pub profile_dir: String,
    pub path: String,
}

/// The mathematical value of a `BrowserProfile`.
pub struct BrowserProfileV {
    pub name: Seq<char>,
    pub profile_dir: Seq<char>,
    pub path: Seq<char>,
}

impl View for BrowserProfile {
    type V = BrowserProfileV;

    open spec fn view(&self) -> BrowserProfileV {
        BrowserProfileV {
            name: self.name@,
            profile_dir: self.profile_dir@,
            path: self.path@,
        }
    }
}

impl DeepView for BrowserProfile {
    type V = BrowserProfileV;

    open spec fn deep_view(&self) -> BrowserProfileV {
        self@
    }
}

/// The kind a lower-cased browser name denotes, by substring containment.
pub open spec fn browser_kind_spec(s: Seq<char>) -> BrowserKind {
    let n = lower_seq(s);
    if contains_seq(n, "chrome"@) || n == "google chrome"@ || n == "google-chrome"@ {
        BrowserKind::Chrome
    } else if contains_seq(n, "firefox"@) || contains_seq(n, "mozilla"@) {
        BrowserKind::Firefox
    } else if contains_seq(n, "edge"@) || contains_seq(n, "msedge"@) {
        BrowserKind::Edge
    } else if contains_seq(n, "brave"@) {
        BrowserKind::Brave
    } else if contains_seq(n, "opera"@) {
        BrowserKind::Opera
    } else if contains_seq(n, "vivaldi"@) {
        BrowserKind::Vivaldi
    } else {
        BrowserKind::Unknown
    }
}

/// Recognizes a browser family anywhere inside its name.
pub fn parse_browser_kind(browser_name: &str) -> (r: BrowserKind)
    ensures
        r == browser_kind_spec(browser_name@),
{
    let lowered = lower_string(browser_name);
    let n = lowered.as_str();
    if contains_sub(n, "chrome") || str_eq(n, "google chrome") || str_eq(n, "google-chrome") {
        BrowserKind::Chrome
    } else if contains_sub(n, "firefox") || contains_sub(n, "mozilla") {
        BrowserKind::Firefox
    } else if contains_sub(n, "edge") || contains_sub(n, "msedge") {
        BrowserKind::Edge
    } else if contains_sub(n, "brave") {
        BrowserKind::Brave
    } else if contains_sub(n, "opera") {
        BrowserKind::Opera
    } else if contains_sub(n, "vivaldi") {
        BrowserKind::Vivaldi
    } else {
        BrowserKind::Unknown
    }
}

/// `base` and `rel` joined by a slash.
pub open spec fn joined_path(base: Seq<char>, rel: Seq<char>) -> Seq<char> {
    base + "/"@ + rel
}

/// Joins a base path and a relative component.
fn join_path(base: &str, rel: &str) -> (r: String)
    ensures
        r@ == joined_path(base@, rel@),
{
    let mut s = base.to_owned();
    s.append("/");
    s.append(rel);
    s
}

/// The display name of one probed row: `gaia_name`, else `name`, else the
/// cache key itself.
pub open spec fn probe_row_name(key: Seq<char>, vals: Seq<Option<Seq<char>>>) -> Seq<char> {
    match vals[0] {
        Some(s) => s,
        None => match vals[1] {
            Some(s) => s,
            None => key,
        },
    }
}

/// Folds info-cache rows into probed profiles: only keys that exist as
/// directories, only non-empty names.
pub open spec fn probe_profiles(
    rows: Seq<(Seq<char>, Seq<Option<Seq<char>>>)>,
    i: int,
    base: Seq<char>,
    existing: Seq<Seq<char>>,
    acc: Seq<BrowserProfileV>,
) -> Seq<BrowserProfileV>
    decreases rows.len() - i,
{
    if i < 0 || i >= rows.len() {
        acc
    } else {
        let key = rows[i].0;
        let nm = probe_row_name(key, rows[i].1);
        if existing.contains(key) && nm.len() > 0 {
            probe_profiles(
                rows,
                i + 1,
                base,
                existing,
                acc.push(
                    BrowserProfileV { name: nm, profile_dir: key, path: joined_path(base, key) },
                ),
            )
        } else {
            probe_profiles(rows, i + 1, base, existing, acc)
        }
    }
}

/// What the probe yields for a user-data directory: nothing when the
/// `Local State` text is absent or unusable, else one profile per existing
/// directory with a non-empty name.
pub open spec fn probe_chrome_profiles_spec(
    base: Seq<char>,
    contents: Option<Seq<char>>,
    existing: Seq<Seq<char>>,
) -> Seq<BrowserProfileV> {
    match contents {
        None => Seq::empty(),
        Some(c) => match json_string_table_of(
            c,
            seq!["profile"@, "info_cache"@],
            seq!["gaia_name"@, "name"@],
        ) {
            None => Seq::empty(),
            Some(rows) => probe_profiles(rows, 0, base, existing, Seq::empty()),
        },
    }
}

/// Whether `list` holds a string equal to `v`.
fn contains_str(list: &Vec<String>, v: &str) -> (r: bool)
    ensures
        r == list.deep_view().contains(v@),
{
    let mut i: usize = 0;
    while i < list.len()
        invariant
            0 <= i <= list@.len(),
            forall|m: int| 0 <= m < i ==> list.deep_view()[m] != v@,
        decreases list@.len() - i,
    {
        if str_eq(list[i].as_str(), v) {
            assert(list.deep_view()[i as int] == v@);
            return true;
        }
        i = i + 1;
    }
    false
}

/// Probes Chromium-family profiles from the text of a `Local State` file
/// under `user_data_path`, keeping only entries listed in `existing_dirs`
/// (the names of the path's existing subdirectories).  Absent or malformed
/// state yields an empty list, never an error.
pub fn get_chrome_profiles(
    user_data_path: &str,
    local_state: Option<&str>,
    existing_dirs: &Vec<String>,
) -> (r: Result<Vec<BrowserProfile>, String>)
    ensures
        r is Ok,
        r matches Ok(v) ==> v.deep_view() == probe_chrome_profiles_spec(
            user_data_path@,
            local_state.deep_view(),
            existing_dirs.deep_view(),
        ),
{
    let contents = match local_state {
        Some(c) => c,
        None => {
            let v: Vec<BrowserProfile> = Vec::new();
            assert(v.deep_view() =~= Seq::<BrowserProfileV>::empty());
            return Ok(v);
        },
    };
    let mut path: Vec<String> = Vec::new();
    path.push("profile".to_owned());
    path.push("info_cache".to_owned());
    assert(path.deep_view() =~= seq!["profile"@, "info_cache"@]);
    let mut fields: Vec<String> = Vec::new();
    fields.push("gaia_name".to_owned());
    fields.push("name".to_owned());
    assert(fields.deep_view() =~= seq!["gaia_name"@, "name"@]);
    let rows = match json_string_table(contents, &path, &fields) {
        Some(rows) => rows,
        None => {
            let v: Vec<BrowserProfile> = Vec::new();
            assert(v.deep_view() =~= Seq::<BrowserProfileV>::empty());
            return Ok(v);
        },
    };
    let ghost rowsv = rows.deep_view();
    let ghost existingv = existing_dirs.deep_view();
    let mut profiles: Vec<BrowserProfile> = Vec::new();
    let mut i: usize = 0;
    assert(profiles.deep_view() =~= Seq::<BrowserProfileV>::empty());
    while i < rows.len()
        invariant
            0 <= i <= rows@.len(),
            rowsv == rows.deep_view(),
            existingv == existing_dirs.deep_view(),
            forall|m: int| 0 <= m < rowsv.len() ==> (#[trigger] rowsv[m]).1.len() == 2,
            probe_profiles(rowsv, i as int, user_data_path@, existingv, profiles.deep_view())
                == probe_profiles(rowsv, 0, user_data_path@, existingv, Seq::empty()),
        decreases rows@.len() - i,
    {
        let row = &rows[i];
        assert(rowsv[i as int] == (row.0@, row.1.deep_view()));
        let ghost vals = rowsv[i as int].1;
        assert(vals.len() == 2);
        let name: String = match &row.1[0] {
            Some(s) => s.clone(),
            None => match &row.1[1] {
                Some(s) => s.clone(),
                None => row.0.clone(),
            },
        };
        assert(name@ == probe_row_name(rowsv[i as int].0, vals));
        if contains_str(existing_dirs, row.0.as_str()) && name.as_str().unicode_len() > 0 {
            let ghost sofar = profiles.deep_view();
            let dir = row.0.clone();
            let full = join_path(user_data_path, dir.as_str());
            profiles.push(BrowserProfile { name, profile_dir: dir, path: full });
            assert(profiles.deep_view() =~= sofar.push(
                BrowserProfileV {
                    name: probe_row_name(rowsv[i as int].0, vals),
                    profile_dir: rowsv[i as int].0,
                    path: joined_path(user_data_path@, rowsv[i as int].0),
                },
            ));
        }
        i = i + 1;
    }
    Ok(profiles)
}

/// The lines of `s`, split on `\n`; a final newline does not contribute an
/// empty last line.
pub open spec fn split_lines(s: Seq<char>) -> Seq<Seq<char>>
    decreases s.len(),
{
    if s.len() == 0 {
        Seq::empty()
    } else {
        let k = first_index_of(s, '\n');
        if 0 <= k < s.len() {
            seq![s.take(k)] + split_lines(s.subrange(k + 1, s.len() as int))
        } else {
            seq![s]
        }
    }
}

/// Splits text into lines on `\n`.
fn split_lines_exec(s: &str) -> (r: Vec<String>)
    ensures
        r.deep_view() == split_lines(s@),
{
    let mut out: Vec<String> = Vec::new();
    let mut rest: String = s.to_owned();
    assert(out.deep_view() =~= Seq::<Seq<char>>::empty());
    loop
        invariant
            out.deep_view() + split_lines(rest@) =~= split_lines(s@),
        ensures
            rest@.len() == 0,
        decreases rest@.len(),
    {
        let n = rest.as_str().unicode_len();
        if n == 0 {
            assert(out.deep_view() + split_lines(rest@) =~= out.deep_view());
            break;
        }
        let ghost before = out.deep_view();
        match find_char(rest.as_str(), '\n') {
            Some(k) => {
                let line = rest.as_str().substring_char(0, k).to_owned();
                let tail = rest.as_str().substring_char(k + 1, n).to_owned();
                assert(line@ =~= rest@.take(k as int));
                assert(tail@ =~= rest@.subrange(k + 1, rest@.len() as int));
                out.push(line);
                assert(out.deep_view() =~= before.push(rest@.take(k as int)));
                assert(before.push(rest@.take(k as int)) =~= before + seq![rest@.take(k as int)]);
                proof {
                    assert(split_lines(rest@) == seq![rest@.take(k as int)] + split_lines(tail@));
                    assert((before + seq![rest@.take(k as int)]) + split_lines(tail@) =~= before
                        + split_lines(rest@));
                }
                rest = tail;
            },
            None => {
                let ghost restv = rest@;
                proof {
                    assert(split_lines(restv) == seq![restv]);
                }
                out.push(rest);
                assert(out.deep_view() =~= before + seq![restv]);
                let empty = String::new();
                assert(empty@ =~= Seq::<char>::empty());
                rest = empty;
                assert(split_lines(rest@) =~= Seq::<Seq<char>>::empty());
                assert(out.deep_view() + split_lines(rest@) =~= out.deep_view());
                break;
            },
        }
    }
    assert(split_lines(rest@) =~= Seq::<Seq<char>>::empty());
    assert(out.deep_view() + split_lines(rest@) =~= out.deep_view());
    out
}

/// A finished `(Name, Path)` pair becomes a profile when the path exists.
pub open spec fn ini_flush(
    acc: Seq<BrowserProfileV>,
    name: Option<Seq<char>>,
    path: Option<Seq<char>>,
    base: Seq<char>,
    existing: Seq<Seq<char>>,
) -> Seq<BrowserProfileV> {
    match (name, path) {
        (Some(n), Some(p)) => if existing.contains(p) {
            acc.push(BrowserProfileV { name: n, profile_dir: p, path: joined_path(base, p) })
        } else {
            acc
        },
        _ => acc,
    }
}

/// The `profiles.ini` line machine: `Name=`/`Path=` collect a pair, an empty
/// line or a section header flushes it, and the end of input flushes the
/// last pair.
pub open spec fn ini_profiles(
    lines: Seq<Seq<char>>,
    i: int,
    name: Option<Seq<char>>,
    path: Option<Seq<char>>,
    base: Seq<char>,
    existing: Seq<Seq<char>>,
    acc: Seq<BrowserProfileV>,
) -> Seq<BrowserProfileV>
    decreases lines.len() - i,
{
    if i < 0 || i >= lines.len() {
        ini_flush(acc, name, path, base, existing)
    } else {
        let line = trim_spec(lines[i]);
        if starts_with_spec(line, "Name="@) {
            ini_profiles(
                lines,
                i + 1,
                Some(line.subrange(5, line.len() as int)),
                path,
                base,
                existing,
                acc,
            )
        } else if starts_with_spec(line, "Path="@) {
            ini_profiles(
                lines,
                i + 1,
                name,
                Some(line.subrange(5, line.len() as int)),
                base,
                existing,
                acc,
            )
        } else if line.len() == 0 || line[0] == '[' {
            ini_profiles(
                lines,
                i + 1,
                None,
                None,
                base,
                existing,
                ini_flush(acc, name, path, base, existing),
            )
        } else {
            ini_profiles(lines, i + 1, name, path, base, existing, acc)
        }
    }
}

/// What the Firefox probe yields for a profiles root: nothing when
/// `profiles.ini` is absent, else the profiles its line machine collects,
/// kept only where the relative path is in `existing_paths`.
pub open spec fn probe_firefox_profiles_spec(
    base: Seq<char>,
    ini: Option<Seq<char>>,
    existing: Seq<Seq<char>>,
) -> Seq<BrowserProfileV> {
    match ini {
        None => Seq::empty(),
        Some(c) => ini_profiles(split_lines(c), 0, None, None, base, existing, Seq::empty()),
    }
}

/// Probes Firefox profiles from the text of `profiles.ini` under
/// `firefox_path`, keeping only entries whose `Path` is listed in
/// `existing_paths` (the relative paths that exist on disk).
pub fn get_firefox_profiles(
    firefox_path: &str,
    ini: Option<&str>,
    existing_paths: &Vec<String>,
) -> (r: Result<Vec<BrowserProfile>, String>)
    ensures
        r is Ok,
        r matches Ok(v) ==> v.deep_view() == probe_firefox_profiles_spec(
            firefox_path@,
            ini.deep_view(),
            existing_paths.deep_view(),
        ),
{
    let contents = match ini {
        Some(c) => c,
        None => {
            let v: Vec<BrowserProfile> = Vec::new();
            assert(v.deep_view() =~= Seq::<BrowserProfileV>::empty());
            return Ok(v);
        },
    };
    let lines = split_lines_exec(contents);
    let ghost linesv = lines.deep_view();
    let ghost existingv = existing_paths.deep_view();
    let mut profiles: Vec<BrowserProfile> = Vec::new();
    let mut cur_name: Option<String> = None;
    let mut cur_path: Option<String> = None;
    let mut i: usize = 0;
    assert(profiles.deep_view() =~= Seq::<BrowserProfileV>::empty());
    while i < lines.len()
        invariant
            0 <= i <= lines@.len(),
            linesv == lines.deep_view(),
            existingv == existing_paths.deep_view(),
            ini_profiles(
                linesv,
                i as int,
                cur_name.deep_view(),
                cur_path.deep_view(),
                firefox_path@,
                existingv,
                profiles.deep_view(),
            ) == ini_profiles(
                linesv,
                0,
                None,
                None,
                firefox_path@,
                existingv,
                Seq::empty(),
            ),
        decreases lines@.len() - i,
    {
        assert(linesv[i as int] == lines.deep_view()[i as int]);
        let line = trim_chars(lines[i].as_str());
        let ln = line.as_str().unicode_len();
        proof {
            reveal_strlit("Name=");
            reveal_strlit("Path=");
        }
        if starts_with_sub(line.as_str(), "Name=") {
            let value = line.as_str().substring_char(5, ln).to_owned();
            assert(value@ =~= trim_spec(linesv[i as int]).subrange(
                5,
                trim_spec(linesv[i as int]).len() as int,
            ));
            cur_name = Some(value);
        } else if starts_with_sub(line.as_str(), "Path=") {
            let value = line.as_str().substring_char(5, ln).to_owned();
            assert(value@ =~= trim_spec(linesv[i as int]).subrange(
                5,
                trim_spec(linesv[i as int]).len() as int,
            ));
            cur_path = Some(value);
        } else if ln == 0 || line.as_str().get_char(0) == '[' {
            let ghost before = profiles.deep_view();
            match (&cur_name, &cur_path) {
                (Some(n), Some(p)) => {
                    if contains_str(existing_paths, p.as_str()) {
                        let full = join_path(firefox_path, p.as_str());
                        profiles.push(
                            BrowserProfile {
                                name: n.clone(),
                                profile_dir: p.clone(),
                                path: full,
                            },
                        );
                        assert(profiles.deep_view() =~= ini_flush(
                            before,
                            cur_name.deep_view(),
                            cur_path.deep_view(),
                            firefox_path@,
                            existingv,
                        ));
                    }
                },
                _ => {},
            }
            cur_name = None;
            cur_path = None;
        }
        i = i + 1;
    }
    let ghost before = profiles.deep_view();
    match (&cur_name, &cur_path) {
        (Some(n), Some(p)) => {
            if contains_str(existing_paths, p.as_str()) {
                let full = join_path(firefox_path, p.as_str());
                profiles.push(
                    BrowserProfile { name: n.clone(), profile_dir: p.clone(), path: full },
                );
                assert(profiles.deep_view() =~= ini_flush(
                    before,
                    cur_name.deep_view(),
                    cur_path.deep_view(),
                    firefox_path@,
                    existingv,
                ));
            }
        },
        _ => {},
    }
    Ok(profiles)
}

} // verus!
