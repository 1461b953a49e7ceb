//! The in-memory log store: ordered entries plus read-only filter queries.

use vstd::prelude::*;

use crate::entry::{EntryModel, LogEntry, Severity};
use crate::parse::{parse_line, parse_line_spec, ParseError};
use crate::text::str_eq;

verus! {

/// The sequence of models of a sequence of entries.
pub open spec fn models_of(s: Seq<LogEntry>) -> Seq<EntryModel> {
    s.map_values(|e: LogEntry| e@)
}

/// Holds of an entry model whose severity equals `level`.
pub open spec fn has_severity(level: Severity) -> spec_fn(EntryModel) -> bool {
    |e: EntryModel| e.severity == level
}

/// Holds of an entry model whose service name equals `name` exactly.
pub open spec fn has_service(name: Seq<char>) -> spec_fn(EntryModel) -> bool {
    |e: EntryModel| e.service == name
}

/// In-memory store of log entries, insertion order preserved. Entries are
/// only ever appended; the store never removes or mutates an entry.
pub struct Logger {
    entries: Vec<LogEntry>,
}

impl View for Logger {
    type V = Seq<EntryModel>;

    closed spec fn view(&self) -> Seq<EntryModel> {
        models_of(self.entries@)
    }
}

impl Logger {
    /// An empty store.
    pub fn new() -> (r: Self)
        ensures
            r@ == Seq::<EntryModel>::empty(),
    {
        let r = Logger { entries: Vec::new() };
        proof {
            assert(r@ =~= Seq::<EntryModel>::empty());
        }
        r
    }

    /// Number of entries currently stored.
    pub fn len(&self) -> (r: usize)
        ensures
            r == self@.len(),
    {
        self.entries.len()
    }

    /// Appends a copy of the entry at the end of the store. Entries added
    /// earlier keep their places, so display order equals insertion order.
    pub fn add(&mut self, log_entry: &LogEntry)
        ensures
            final(self)@ == old(self)@.push(log_entry@),
    {
        self.entries.push(log_entry.clone());
        proof {
            assert(final(self)@ =~= old(self)@.push(log_entry@));
        }
    }

    /// Parses one input line and, if it is valid, appends the entry it
    /// denotes. A rejected line is reported and leaves the store exactly
    /// as it was: nothing invalid ever reaches the store.
    pub fn add_line(&mut self, line: &str) -> (r: Result<(), ParseError>)
        ensures
            match parse_line_spec(line@) {
                Ok(e) => r is Ok && final(self)@ == old(self)@.push(e),
                Err(er) => r == Err::<(), ParseError>(er) && final(self)@ == old(self)@,
            },
    {
        match parse_line(line) {
            Ok(e) => {
                self.add(&e);
                Ok(())
            },
            Err(er) => Err(er),
        }
    }

    /// All entries, in insertion order, unchanged.
    pub fn all(&self) -> (r: &Vec<LogEntry>)
        ensures
            models_of(r@) == self@,
    {
        &self.entries
    }

    /// The subsequence of entries whose severity equals `level`, in the
    /// original relative order. Pure: the store is not changed.
    pub fn filter_by_severity(&self, level: Severity) -> (r: Vec<LogEntry>)
        ensures
            models_of(r@) == self@.filter(has_severity(level)),
    {
        let mut r: Vec<LogEntry> = Vec::new();
        let n = self.entries.len();
        let mut i: usize = 0;
        proof {
            reveal(Seq::filter);
            assert(models_of(r@) =~= self@.take(0).filter(has_severity(level)));
        }
        while i < n
            invariant
                i <= n == self.entries@.len(),
                models_of(r@) == self@.take(i as int).filter(has_severity(level)),
            decreases n - i,
        {
            let e = &self.entries[i];
            let ghost prev = models_of(r@);
            if e.severity == level {
                r.push(e.clone());
            }
            proof {
                reveal(Seq::filter);
                let p = has_severity(level);
                let t = self@.take(i + 1);
                assert(t.drop_last() =~= self@.take(i as int));
                assert(t.last() == e@);
                if p(e@) {
                    assert(models_of(r@) =~= prev.push(e@));
                } else {
                    assert(models_of(r@) =~= prev);
                }
                assert(models_of(r@) == t.filter(p));
            }
            i = i + 1;
        }
        proof {
            assert(self@.take(n as int) =~= self@);
        }
        r
    }

    /// The subsequence of entries whose service name equals `service`
    /// exactly (case-sensitive), in the original relative order. Pure: the
    /// store is not changed.
    pub fn filter_by_service(&self, service: &str) -> (r: Vec<LogEntry>)
        ensures
            models_of(r@) == self@.filter(has_service(service@)),
    {
        let mut r: Vec<LogEntry> = Vec::new();
        let n = self.entries.len();
        let mut i: usize = 0;
        proof {
            reveal(Seq::filter);
            assert(models_of(r@) =~= self@.take(0).filter(has_service(service@)));
        }
        while i < n
            invariant
                i <= n == self.entries@.len(),
                models_of(r@) == self@.take(i as int).filter(has_service(service@)),
            decreases n - i,
        {
            let e = &self.entries[i];
            let ghost prev = models_of(r@);
            if str_eq(e.service.as_str(), service) {
                r.push(e.clone());
            }
            proof {
                reveal(Seq::filter);
                let p = has_service(service@);
                let t = self@.take(i + 1);
                assert(t.drop_last() =~= self@.take(i as int));
                assert(t.last() == e@);
                if p(e@) {
                    assert(models_of(r@) =~= prev.push(e@));
                } else {
                    assert(models_of(r@) =~= prev);
                }
                assert(models_of(r@) == t.filter(p));
            }
            i = i + 1;
        }
        proof {
            assert(self@.take(n as int) =~= self@);
        }
        r
    }
}

/// Appending an entry leaves every earlier entry at its place and puts the
/// new one at the end: with `add`'s contract, entries come back from `all`
/// in exactly the order they were added.
pub proof fn lemma_add_preserves_order(s: Seq<EntryModel>, e: EntryModel)
    ensures
        s.push(e).len() == s.len() + 1,
        s.push(e)[s.len() as int] == e,
        forall|j: int| 0 <= j < s.len() ==> s.push(e)[j] == s[j],
{
}

/// Every entry a severity filter returns has the requested severity, every
/// stored entry with that severity appears in the result, and the result is
/// no longer than the store.
pub proof fn lemma_filter_by_severity_exact(s: Seq<EntryModel>, level: Severity)
    ensures
        forall|i: int|
            0 <= i < s.filter(has_severity(level)).len() ==> (#[trigger] s.filter(
                has_severity(level),
            )[i]).severity == level,
        forall|i: int|
            0 <= i < s.len() && s[i].severity == level ==> s.filter(has_severity(level)).contains(
                s[i],
            ),
        s.filter(has_severity(level)).len() <= s.len(),
{
    let p = has_severity(level);
    assert forall|i: int| 0 <= i < s.filter(p).len() implies (#[trigger] s.filter(
        p,
    )[i]).severity == level by {
        s.lemma_filter_pred(p, i);
    }
    assert forall|i: int| 0 <= i < s.len() && s[i].severity == level implies s.filter(p).contains(
        s[i],
    ) by {
        s.lemma_filter_contains(p, i);
    }
    s.lemma_filter_len(p);
}

/// Every entry a service filter returns carries the requested service name,
/// every stored entry with that name appears in the result, and the result
/// is no longer than the store.
pub proof fn lemma_filter_by_service_exact(s: Seq<EntryModel>, name: Seq<char>)
    ensures
        forall|i: int|
            0 <= i < s.filter(has_service(name)).len() ==> (#[trigger] s.filter(
                has_service(name),
            )[i]).service == name,
        forall|i: int|
            0 <= i < s.len() && s[i].service == name ==> s.filter(has_service(name)).contains(
                s[i],
            ),
        s.filter(has_service(name)).len() <= s.len(),
{
    let p = has_service(name);
    assert forall|i: int| 0 <= i < s.filter(p).len() implies (#[trigger] s.filter(
        p,
    )[i]).service == name by {
        s.lemma_filter_pred(p, i);
    }
    assert forall|i: int| 0 <= i < s.len() && s[i].service == name implies s.filter(p).contains(
        s[i],
    ) by {
        s.lemma_filter_contains(p, i);
    }
    s.lemma_filter_len(p);
}

/// A sequence whose entries all satisfy `p` is left unchanged by filtering
/// with `p`.
pub proof fn lemma_filter_all_satisfy(s: Seq<EntryModel>, p: spec_fn(EntryModel) -> bool)
    requires
        forall|i: int| 0 <= i < s.len() ==> p(#[trigger] s[i]),
    ensures
        s.filter(p) == s,
    decreases s.len(),
{
    reveal(Seq::filter);
    if s.len() > 0 {
        lemma_filter_all_satisfy(s.drop_last(), p);
        assert(s.drop_last().push(s.last()) =~= s);
    }
}

/// Filtering is idempotent: filtering a result again with the same
/// predicate returns it unchanged. With the filters' own contracts this
/// means that two filter calls with the same argument against an unchanged
/// store yield the same entries; the store itself is never mutated, as both
/// filters take the store by shared reference.
pub proof fn lemma_filter_idempotent(s: Seq<EntryModel>, p: spec_fn(EntryModel) -> bool)
    ensures
        s.filter(p).filter(p) == s.filter(p),
{
    assert forall|i: int| 0 <= i < s.filter(p).len() implies p(#[trigger] s.filter(p)[i]) by {
        s.lemma_filter_pred(p, i);
    }
    lemma_filter_all_satisfy(s.filter(p), p);
}

} // verus!
