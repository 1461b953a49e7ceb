//! Textual rendering of entries, one line per field.

use vstd::prelude::*;

use crate::entry::{severity_name, EntryModel, LogEntry};
use crate::store::models_of;

verus! {

/// The character sequences of a sequence of strings.
pub open spec fn string_views(s: Seq<String>) -> Seq<Seq<char>> {
    s.map_values(|t: String| t@)
}

/// The three display lines of one entry: its severity, message and
/// service, each behind its label.
pub open spec fn entry_lines(e: EntryModel) -> Seq<Seq<char>> {
    seq![
        "level: "@ + severity_name(e.severity),
        "Message: "@ + e.message,
        "Service: "@ + e.service,
    ]
}

/// The display lines of a sequence of entries, in the sequence's order.
pub open spec fn rendered(entries: Seq<EntryModel>) -> Seq<Seq<char>>
    decreases entries.len(),
{
    if entries.len() == 0 {
        Seq::empty()
    } else {
        rendered(entries.drop_last()) + entry_lines(entries.last())
    }
}

/// The three display lines of one entry.
pub fn render_entry(e: &LogEntry) -> (r: Vec<String>)
    ensures
        string_views(r@) == entry_lines(e@),
{
    let mut l1 = String::from_str("level: ");
    l1.append(e.severity.name());
    let mut l2 = String::from_str("Message: ");
    l2.append(e.message.as_str());
    let mut l3 = String::from_str("Service: ");
    l3.append(e.service.as_str());
    let mut r: Vec<String> = Vec::new();
    r.push(l1);
    r.push(l2);
    r.push(l3);
    proof {
        assert(string_views(r@) =~= entry_lines(e@));
    }
    r
}

/// The display lines of the entries, entry by entry in the given order.
pub fn render_entries(entries: &Vec<LogEntry>) -> (r: Vec<String>)
    ensures
        string_views(r@) == rendered(models_of(entries@)),
{
    let ghost m = models_of(entries@);
    let mut r: Vec<String> = Vec::new();
    let n = entries.len();
    let mut i: usize = 0;
    proof {
        assert(string_views(r@) =~= rendered(m.take(0)));
    }
    while i < n
        invariant
            i <= n == entries@.len(),
            m == models_of(entries@),
            string_views(r@) == rendered(m.take(i as int)),
        decreases n - i,
    {
        let ghost prev = string_views(r@);
        let mut lines = render_entry(&entries[i]);
        r.append(&mut lines);
        proof {
            let t = m.take(i + 1);
            assert(t.drop_last() =~= m.take(i as int));
            assert(t.last() == entries@[i as int]@);
            assert(string_views(r@) =~= prev + entry_lines(entries@[i as int]@));
        }
        i = i + 1;
    }
    proof {
        assert(m.take(n as int) =~= m);
    }
    r
}

} // verus!
