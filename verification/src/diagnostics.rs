//! Bounded, append-only diagnostics log.
//!
//! `record` appends an entry and evicts the oldest entries past a fixed
//! capacity of 500, in insertion order; `snapshot` copies the log and
//! `export` renders it as `[timestamp] message` lines.

use vstd::prelude::*;
use crate::host::{fresh_uuid, rfc3339_now};
use crate::text::{
    lemma_lex_le_trans, lemma_lex_lt_asym, lemma_lex_lt_irrefl, lemma_lex_total, lex_le, lex_lt,
    str_lt,
};

verus! {

/// The log keeps at most this many entries.
pub const MAX_ENTRIES: usize = 500;

/// One recorded operational event.
#[derive(Debug)]
pub struct DiagnosticEntry {
    pub id: String,
    pub timestamp: String,
    pub message: String,
}

/// The mathematical value of a `DiagnosticEntry`.
pub struct DiagnosticEntryV {
    pub id: Seq<char>,
    pub timestamp: Seq<char>,
    pub message: Seq<char>,
}

impl View for DiagnosticEntry {
    type V = DiagnosticEntryV;

    open spec fn view(&self) -> DiagnosticEntryV {
        DiagnosticEntryV { id: self.id@, timestamp: self.timestamp@, message: self.message@ }
    }
}

impl DeepView for DiagnosticEntry {
    type V = DiagnosticEntryV;

    open spec fn deep_view(&self) -> DiagnosticEntryV {
        self@
    }
}

impl Clone for DiagnosticEntry {
    fn clone(&self) -> (r: Self)
        ensures
            r@ == self@,
    {
        DiagnosticEntry {
            id: self.id.clone(),
            timestamp: self.timestamp.clone(),
            message: self.message.clone(),
        }
    }
}

/// The append-only log itself.
#[derive(Debug)]
pub struct DiagnosticsState {
    entries: Vec<DiagnosticEntry>,
}

impl View for DiagnosticsState {
    type V = Seq<DiagnosticEntryV>;

    closed spec fn view(&self) -> Seq<DiagnosticEntryV> {
        self.entries.deep_view()
    }
}

impl DiagnosticsState {
    /// An empty log.
    pub fn new() -> (r: Self)
        ensures
            r@ == Seq::<DiagnosticEntryV>::empty(),
    {
        let r = DiagnosticsState { entries: Vec::new() };
        proof {
            assert(r@ =~= Seq::<DiagnosticEntryV>::empty());
        }
        r
    }

    /// Appends a message under a fresh id and the current time, evicting the
    /// oldest entry when the log already holds `MAX_ENTRIES`.
    pub fn record(&mut self, message: &str) -> (r: DiagnosticEntry)
        ensures
            r@.message == message@,
            r@.id.len() == 36,
            r@.timestamp.len() > 0,
            final(self)@.len() <= MAX_ENTRIES,
            old(self)@.len() < MAX_ENTRIES ==> final(self)@ == old(self)@.push(r@),
            old(self)@.len() >= MAX_ENTRIES ==> final(self)@ == old(self)@.skip(
                old(self)@.len() - (MAX_ENTRIES - 1),
            ).push(r@),
    {
        let entry = DiagnosticEntry {
            id: fresh_uuid(),
            timestamp: rfc3339_now(),
            message: message.to_owned(),
        };
        let returned = entry.clone();
        let ghost before = self.entries.deep_view();
        let total = self.entries.len();
        let start: usize = if total >= MAX_ENTRIES {
            total - (MAX_ENTRIES - 1)
        } else {
            0
        };
        let mut out: Vec<DiagnosticEntry> = Vec::new();
        let mut i: usize = start;
        assert(out.deep_view() =~= before.subrange(start as int, start as int));
        while i < total
            invariant
                start <= i <= total,
                total == before.len(),
                before == self.entries.deep_view(),
                out.deep_view() =~= before.subrange(start as int, i as int),
            decreases total - i,
        {
            let ghost sofar = out.deep_view();
            out.push(self.entries[i].clone());
            proof {
                assert(out.deep_view() =~= sofar.push(before[i as int]));
                assert(before.subrange(start as int, i + 1).drop_last() =~= before.subrange(
                    start as int,
                    i as int,
                ));
                assert(out.deep_view() =~= before.subrange(start as int, i + 1));
            }
            i = i + 1;
        }
        let ghost kept = out.deep_view();
        out.push(entry);
        assert(out.deep_view() =~= kept.push(returned@));
        self.entries = out;
        proof {
            if before.len() < MAX_ENTRIES {
                assert(before.subrange(0, before.len() as int) =~= before);
            } else {
                assert(before.subrange(start as int, before.len() as int) =~= before.skip(
                    start as int,
                ));
            }
        }
        returned
    }

    /// A copy of the log in insertion order.
    pub fn snapshot(&self) -> (r: Vec<DiagnosticEntry>)
        ensures
            r.deep_view() == self@,
    {
        let mut out: Vec<DiagnosticEntry> = Vec::new();
        let mut i: usize = 0;
        while i < self.entries.len()
            invariant
                0 <= i <= self.entries@.len(),
                out.deep_view() =~= self.entries.deep_view().take(i as int),
            decreases self.entries@.len() - i,
        {
            let ghost sofar = out.deep_view();
            out.push(self.entries[i].clone());
            assert(out.deep_view() =~= sofar.push(self.entries.deep_view()[i as int]));
            i = i + 1;
        }
        assert(out.deep_view() =~= self.entries.deep_view());
        out
    }

    /// Empties the log.
    pub fn clear(&mut self)
        ensures
            final(self)@ == Seq::<DiagnosticEntryV>::empty(),
    {
        self.entries.clear();
        assert(final(self)@ =~= Seq::<DiagnosticEntryV>::empty());
    }

    /// The log rendered as `[timestamp] message` lines joined by newlines.
    pub fn export(&self) -> (r: String)
        ensures
            r@ == export_spec(self@),
    {
        let mut out = String::new();
        let mut i: usize = 0;
        while i < self.entries.len()
            invariant
                0 <= i <= self.entries@.len(),
                out@ == export_spec(self.entries.deep_view().take(i as int)),
            decreases self.entries@.len() - i,
        {
            let ghost all = self.entries.deep_view();
            if i > 0 {
                out.append("\n");
            }
            out.append("[");
            out.append(self.entries[i].timestamp.as_str());
            out.append("] ");
            out.append(self.entries[i].message.as_str());
            proof {
                assert(all.take(i + 1).drop_last() =~= all.take(i as int));
                assert(all.take(i + 1).last() == all[i as int]);
            }
            i = i + 1;
        }
        assert(self.entries.deep_view().take(self.entries@.len() as int) =~= self@);
        out
    }

    /// A copy of the log ordered most recent first: by timestamp
    /// descending, entries with equal timestamps keeping insertion order.
    pub fn recent_first(&self) -> (r: Vec<DiagnosticEntry>)
        ensures
            r.deep_view() == sort_desc_spec(self@),
    {
        let ghost all = self.entries.deep_view();
        let mut out: Vec<DiagnosticEntry> = Vec::new();
        let mut i: usize = 0;
        assert(out.deep_view() =~= sort_desc_spec(all.take(0)));
        while i < self.entries.len()
            invariant
                0 <= i <= self.entries@.len(),
                all == self.entries.deep_view(),
                out.deep_view() == sort_desc_spec(all.take(i as int)),
            decreases self.entries@.len() - i,
        {
            insert_entry_desc(&mut out, self.entries[i].clone());
            proof {
                assert(all.take(i + 1).drop_last() =~= all.take(i as int));
                assert(all.take(i + 1).last() == all[i as int]);
            }
            i = i + 1;
        }
        assert(all.take(all.len() as int) =~= all);
        out
    }
}

impl Default for DiagnosticsState {
    fn default() -> (r: Self)
        ensures
            r@ == Seq::<DiagnosticEntryV>::empty(),
    {
        Self::new()
    }
}

/// Helper naming `s[i]` so quantified rewrites have a stable shape.
pub open spec fn entry_at(s: Seq<DiagnosticEntryV>, i: int) -> DiagnosticEntryV {
    s[i]
}

/// Stable insertion of `e` into `s` ordered by timestamp descending: after
/// every entry whose timestamp is at or after `e`'s.
pub open spec fn insert_desc(s: Seq<DiagnosticEntryV>, e: DiagnosticEntryV) -> Seq<
    DiagnosticEntryV,
>
    decreases s.len(),
{
    if s.len() == 0 {
        seq![e]
    } else if lex_le(e.timestamp, s.last().timestamp) {
        s.push(e)
    } else {
        insert_desc(s.drop_last(), e).push(s.last())
    }
}

/// Stable insertion sort by timestamp, most recent first, processing `s`
/// left to right (ties keep insertion order).
pub open spec fn sort_desc_spec(s: Seq<DiagnosticEntryV>) -> Seq<DiagnosticEntryV>
    decreases s.len(),
{
    if s.len() == 0 {
        s
    } else {
        insert_desc(sort_desc_spec(s.drop_last()), s.last())
    }
}

proof fn lemma_insert_desc_at(s: Seq<DiagnosticEntryV>, e: DiagnosticEntryV, j: int)
    requires
        0 <= j <= s.len(),
        forall|m: int| j <= m < s.len() ==> lex_lt(entry_at(s, m).timestamp, e.timestamp),
        j > 0 ==> lex_le(e.timestamp, s[j - 1].timestamp),
    ensures
        insert_desc(s, e) == s.subrange(0, j) + seq![e] + s.subrange(j, s.len() as int),
    decreases s.len(),
{
    if s.len() == 0 {
        assert(insert_desc(s, e) =~= s.subrange(0, 0) + seq![e] + s.subrange(0, 0));
    } else if lex_le(e.timestamp, s.last().timestamp) {
        assert(j == s.len()) by {
            if j < s.len() {
                assert(lex_lt(entry_at(s, s.len() - 1).timestamp, e.timestamp));
                if e.timestamp == s.last().timestamp {
                    lemma_lex_lt_irrefl(e.timestamp);
                } else {
                    lemma_lex_lt_asym(s.last().timestamp, e.timestamp);
                }
            }
        }
        assert(s.push(e) =~= s.subrange(0, j) + seq![e] + s.subrange(j, s.len() as int));
    } else {
        assert(lex_lt(s.last().timestamp, e.timestamp)) by {
            lemma_lex_total(e.timestamp, s.last().timestamp);
        }
        assert(j < s.len()) by {
            if j == s.len() {
                assert(lex_le(e.timestamp, s[j - 1].timestamp));
                assert(s[j - 1] == s.last());
                if e.timestamp == s.last().timestamp {
                    lemma_lex_lt_irrefl(e.timestamp);
                } else {
                    lemma_lex_lt_asym(e.timestamp, s.last().timestamp);
                }
            }
        }
        let t = s.drop_last();
        assert(forall|m: int| j <= m < t.len() ==> t[m] == entry_at(s, m));
        assert(forall|m: int|
            j <= m < t.len() ==> lex_lt(entry_at(t, m).timestamp, e.timestamp));
        assert(j > 0 ==> lex_le(e.timestamp, t[j - 1].timestamp));
        lemma_insert_desc_at(t, e, j);
        assert(insert_desc(t, e).push(s.last()) =~= s.subrange(0, j) + seq![e] + s.subrange(
            j,
            s.len() as int,
        ));
    }
}

/// Inserts `e` into `out` keeping timestamp-descending order, after equals.
fn insert_entry_desc(out: &mut Vec<DiagnosticEntry>, e: DiagnosticEntry)
    ensures
        final(out).deep_view() == insert_desc(old(out).deep_view(), e@),
{
    let ghost s = out.deep_view();
    let mut idx: usize = out.len();
    while idx > 0 && str_lt(out[idx - 1].timestamp.as_str(), e.timestamp.as_str())
        invariant
            0 <= idx <= out@.len(),
            s == out.deep_view(),
            forall|m: int|
                idx <= m < s.len() ==> lex_lt(entry_at(s, m).timestamp, e@.timestamp),
        decreases idx,
    {
        assert(entry_at(s, idx - 1) == out.deep_view()[idx - 1]);
        idx = idx - 1;
    }
    proof {
        if idx > 0 {
            assert(entry_at(s, idx - 1) == out.deep_view()[idx - 1]);
            lemma_lex_total(e@.timestamp, s[idx - 1].timestamp);
        }
        lemma_insert_desc_at(s, e@, idx as int);
    }
    out.insert(idx, e);
    assert(final(out).deep_view() =~= s.subrange(0, idx as int) + seq![e@] + s.subrange(
        idx as int,
        s.len() as int,
    ));
}

/// `s` is ordered by timestamp descending.
pub open spec fn sorted_desc(s: Seq<DiagnosticEntryV>) -> bool {
    forall|i: int, j: int| 0 <= i < j < s.len() ==> lex_le(s[j].timestamp, s[i].timestamp)
}

proof fn lemma_insert_desc_contains(s: Seq<DiagnosticEntryV>, e: DiagnosticEntryV)
    ensures
        insert_desc(s, e).len() == s.len() + 1,
        forall|x: DiagnosticEntryV|
            #[trigger] insert_desc(s, e).contains(x) <==> (s.contains(x) || x == e),
    decreases s.len(),
{
    let r = insert_desc(s, e);
    if s.len() == 0 {
        assert forall|x: DiagnosticEntryV| #[trigger] r.contains(x) implies (s.contains(x) || x
            == e) by {
            let i = choose|i: int| 0 <= i < r.len() && r[i] == x;
            assert(r[0] == e);
        }
        assert(r.contains(e)) by {
            assert(r[0] == e);
        }
    } else if lex_le(e.timestamp, s.last().timestamp) {
        assert forall|x: DiagnosticEntryV| #[trigger] r.contains(x) implies (s.contains(x) || x
            == e) by {
            let i = choose|i: int| 0 <= i < r.len() && r[i] == x;
            if i < s.len() {
                assert(s[i] == x);
            }
        }
        assert forall|x: DiagnosticEntryV| s.contains(x) || x == e implies #[trigger] r.contains(
            x,
        ) by {
            if s.contains(x) {
                let i = choose|i: int| 0 <= i < s.len() && s[i] == x;
                assert(r[i] == x);
            } else {
                assert(r[s.len() as int] == e);
            }
        }
    } else {
        let t = s.drop_last();
        lemma_insert_desc_contains(t, e);
        let r0 = insert_desc(t, e);
        assert forall|x: DiagnosticEntryV| #[trigger] r.contains(x) implies (s.contains(x) || x
            == e) by {
            let i = choose|i: int| 0 <= i < r.len() && r[i] == x;
            if i < r0.len() {
                assert(r0.contains(x)) by {
                    assert(r0[i] == x);
                }
                if t.contains(x) {
                    let j = choose|j: int| 0 <= j < t.len() && t[j] == x;
                    assert(s[j] == x);
                }
            } else {
                assert(x == s.last());
                assert(s[s.len() - 1] == x);
            }
        }
        assert forall|x: DiagnosticEntryV| s.contains(x) || x == e implies #[trigger] r.contains(
            x,
        ) by {
            if x == e || t.contains(x) {
                assert(r0.contains(x));
                let j = choose|j: int| 0 <= j < r0.len() && r0[j] == x;
                assert(r[j] == x);
            } else {
                let i = choose|i: int| 0 <= i < s.len() && s[i] == x;
                if i < s.len() - 1 {
                    assert(t[i] == x);
                    assert(t.contains(x));
                } else {
                    assert(r[r.len() - 1] == x);
                }
            }
        }
    }
}

proof fn lemma_insert_desc_sorted(s: Seq<DiagnosticEntryV>, e: DiagnosticEntryV)
    requires
        sorted_desc(s),
    ensures
        sorted_desc(insert_desc(s, e)),
    decreases s.len(),
{
    let r = insert_desc(s, e);
    if s.len() == 0 {
    } else if lex_le(e.timestamp, s.last().timestamp) {
        assert forall|i: int, j: int| 0 <= i < j < r.len() implies lex_le(
            r[j].timestamp,
            r[i].timestamp,
        ) by {
            if j == s.len() {
                if i < s.len() - 1 {
                    lemma_lex_le_trans(
                        e.timestamp,
                        s.last().timestamp,
                        s[i].timestamp,
                    );
                }
            }
        }
    } else {
        let t = s.drop_last();
        assert(sorted_desc(t)) by {
            assert(forall|i: int| 0 <= i < t.len() ==> t[i] == s[i]);
        }
        lemma_insert_desc_sorted(t, e);
        lemma_insert_desc_contains(t, e);
        let r0 = insert_desc(t, e);
        lemma_lex_total(e.timestamp, s.last().timestamp);
        assert(lex_lt(s.last().timestamp, e.timestamp));
        assert forall|i: int, j: int| 0 <= i < j < r.len() implies lex_le(
            r[j].timestamp,
            r[i].timestamp,
        ) by {
            if j == r.len() - 1 {
                let x = r0[i];
                assert(r0.contains(x));
                if t.contains(x) {
                    let m = choose|m: int| 0 <= m < t.len() && t[m] == x;
                    assert(s[m] == x);
                    if m < s.len() - 1 {
                        assert(lex_le(s.last().timestamp, s[m].timestamp));
                    }
                } else {
                    assert(x == e);
                }
            } else {
                assert(r[i] == r0[i] && r[j] == r0[j]);
            }
        }
    }
}

/// Law: the most-recent-first projection holds the same entries, ordered by
/// timestamp descending, whatever the log holds.
pub proof fn lemma_sort_desc_props(s: Seq<DiagnosticEntryV>)
    ensures
        sort_desc_spec(s).len() == s.len(),
        forall|x: DiagnosticEntryV| #[trigger] sort_desc_spec(s).contains(x) <==> s.contains(x),
        sorted_desc(sort_desc_spec(s)),
    decreases s.len(),
{
    if s.len() > 0 {
        let t = s.drop_last();
        lemma_sort_desc_props(t);
        let st = sort_desc_spec(t);
        lemma_insert_desc_contains(st, s.last());
        lemma_insert_desc_sorted(st, s.last());
        assert forall|x: DiagnosticEntryV|
            #[trigger] sort_desc_spec(s).contains(x) <==> s.contains(x) by {
            if sort_desc_spec(s).contains(x) {
                if st.contains(x) {
                    assert(t.contains(x));
                    let m = choose|m: int| 0 <= m < t.len() && t[m] == x;
                    assert(s[m] == x);
                } else {
                    assert(s[s.len() - 1] == x);
                }
            }
            if s.contains(x) {
                let m = choose|m: int| 0 <= m < s.len() && s[m] == x;
                if m < s.len() - 1 {
                    assert(t[m] == x);
                    assert(t.contains(x));
                }
            }
        }
    }
}

/// One rendered log line.
pub open spec fn line_spec(e: DiagnosticEntryV) -> Seq<char> {
    "["@ + e.timestamp + "] "@ + e.message
}

/// The rendered log: lines joined by `\n`.
pub open spec fn export_spec(s: Seq<DiagnosticEntryV>) -> Seq<char>
    decreases s.len(),
{
    if s.len() == 0 {
        Seq::empty()
    } else if s.len() == 1 {
        line_spec(s[0])
    } else {
        export_spec(s.drop_last()) + "\n"@ + line_spec(s.last())
    }
}

} // verus!
