//! Parsing of input lines of the form `<level>;<message>;<service>`.

use vstd::prelude::*;

use crate::entry::{EntryModel, LogEntry, Severity};
use crate::text::{eq_lowercase, lower, trim, trimmed};

verus! {

/// Why a line was rejected: wrong field count, or a level token outside
/// the closed set of severities.
#[derive(Clone, Copy, PartialEq, Eq, Structural, Debug)]
pub enum ParseError {
    MalformedLine,
    UnknownSeverity,
}

/// The fields of `s` separated by `;`, in order. A string with no `;`
/// is one field, so the result always holds at least one field.
pub open spec fn split_fields(s: Seq<char>) -> Seq<Seq<char>>
    decreases s.len(),
{
    if s.len() == 0 {
        seq![Seq::<char>::empty()]
    } else if s[0] == ';' {
        seq![Seq::<char>::empty()] + split_fields(s.drop_first())
    } else {
        let rest = split_fields(s.drop_first());
        seq![seq![s[0]] + rest[0]] + rest.drop_first()
    }
}

/// Splitting yields at least one field.
pub proof fn lemma_split_fields_nonempty(s: Seq<char>)
    ensures
        split_fields(s).len() >= 1,
    decreases s.len(),
{
    if s.len() > 0 {
        lemma_split_fields_nonempty(s.drop_first());
    }
}

/// A string without `;` is a single field.
proof fn lemma_split_no_semi(s: Seq<char>)
    requires
        forall|j: int| 0 <= j < s.len() ==> s[j] != ';',
    ensures
        split_fields(s) == seq![s],
    decreases s.len(),
{
    if s.len() == 0 {
        assert(s =~= Seq::<char>::empty());
        assert(split_fields(s) =~= seq![s]);
    } else {
        lemma_split_no_semi(s.drop_first());
        let rest = split_fields(s.drop_first());
        assert(rest[0] == s.drop_first());
        assert(seq![s[0]] + s.drop_first() =~= s);
        assert(rest.drop_first() =~= Seq::<Seq<char>>::empty());
        assert(split_fields(s) =~= seq![s]);
    }
}

/// Splitting at the first `;` takes the prefix as the first field and
/// splits the remainder into the others.
proof fn lemma_split_at_semi(s: Seq<char>, i: int)
    requires
        0 <= i < s.len(),
        s[i] == ';',
        forall|j: int| 0 <= j < i ==> s[j] != ';',
    ensures
        split_fields(s) == seq![s.take(i)] + split_fields(s.skip(i + 1)),
    decreases i,
{
    if i == 0 {
        assert(s.take(0) =~= Seq::<char>::empty());
        assert(s.skip(1) =~= s.drop_first());
        assert(split_fields(s) =~= seq![s.take(0)] + split_fields(s.skip(1)));
    } else {
        let d = s.drop_first();
        assert(d[i - 1] == ';');
        lemma_split_at_semi(d, i - 1);
        let rest = split_fields(d);
        assert(rest == seq![d.take(i - 1)] + split_fields(d.skip(i)));
        lemma_split_fields_nonempty(d.skip(i));
        assert(rest[0] == d.take(i - 1));
        assert(seq![s[0]] + d.take(i - 1) =~= s.take(i));
        assert(rest.drop_first() =~= split_fields(d.skip(i)));
        assert(d.skip(i) =~= s.skip(i + 1));
        assert(split_fields(s) =~= seq![s.take(i)] + split_fields(s.skip(i + 1)));
    }
}

/// The character sequences of a sequence of string slices.
pub open spec fn views_of(s: Seq<&str>) -> Seq<Seq<char>> {
    s.map_values(|t: &str| t@)
}

/// The fields of `s` separated by `;`, as slices of `s`, in order.
pub fn split_semis<'a>(s: &'a str) -> (r: Vec<&'a str>)
    ensures
        views_of(r@) == split_fields(s@),
        r@.len() >= 1,
    decreases s@.len(),
{
    let len = s.unicode_len();
    let mut i: usize = 0;
    while i < len && s.get_char(i) != ';'
        invariant
            i <= len == s@.len(),
            forall|j: int| 0 <= j < i ==> s@[j] != ';',
        decreases len - i,
    {
        i = i + 1;
    }
    if i == len {
        proof {
            lemma_split_no_semi(s@);
        }
        let mut r: Vec<&str> = Vec::new();
        r.push(s);
        proof {
            assert(views_of(r@) =~= seq![s@]);
        }
        r
    } else {
        let head = s.substring_char(0, i);
        let tail = s.substring_char(i + 1, len);
        proof {
            assert(tail@ =~= s@.skip(i + 1));
        }
        let mut rest = split_semis(tail);
        let mut r: Vec<&str> = Vec::new();
        r.push(head);
        r.append(&mut rest);
        proof {
            lemma_split_at_semi(s@, i as int);
            assert(head@ =~= s@.take(i as int));
            assert(views_of(r@) =~= seq![s@.take(i as int)] + split_fields(s@.skip(i + 1)));
        }
        r
    }
}

/// The severity a level token denotes: the token, lowercased ASCII-wise,
/// must read `info`, `warning` or `error`.
pub open spec fn severity_of(t: Seq<char>) -> Option<Severity> {
    if lower(t) == "info"@ {
        Some(Severity::Info)
    } else if lower(t) == "warning"@ {
        Some(Severity::Warning)
    } else if lower(t) == "error"@ {
        Some(Severity::Error)
    } else {
        None
    }
}

/// The severity denoted by `tok`, taken as it stands (no trimming).
pub fn severity_token(tok: &str) -> (r: Option<Severity>)
    ensures
        r == severity_of(tok@),
{
    if eq_lowercase(tok, "info") {
        Some(Severity::Info)
    } else if eq_lowercase(tok, "warning") {
        Some(Severity::Warning)
    } else if eq_lowercase(tok, "error") {
        Some(Severity::Error)
    } else {
        None
    }
}

/// The severity denoted by `token` after trimming surrounding whitespace,
/// as the interactive level prompt reads it.
pub fn parse_severity(token: &str) -> (r: Option<Severity>)
    ensures
        r == severity_of(trimmed(token@)),
{
    severity_token(trim(token))
}

/// What parsing a whole input line yields: the line is trimmed, split at
/// `;` into exactly three fields `level`, `message`, `service`, and the
/// level field must denote a severity. Any other field count is a
/// malformed line; an unrecognized level is an unknown severity.
pub open spec fn parse_line_spec(line: Seq<char>) -> Result<EntryModel, ParseError> {
    let fields = split_fields(trimmed(line));
    if fields.len() != 3 {
        Err(ParseError::MalformedLine)
    } else {
        match severity_of(fields[0]) {
            Some(sev) => Ok(
                EntryModel { severity: sev, message: fields[1], service: fields[2] },
            ),
            None => Err(ParseError::UnknownSeverity),
        }
    }
}

/// Parses one input line into a log entry, or reports why it is rejected.
/// Succeeds exactly on the lines `parse_line_spec` accepts, with the
/// entry it prescribes.
pub fn parse_line(line: &str) -> (r: Result<LogEntry, ParseError>)
    ensures
        match r {
            Ok(e) => parse_line_spec(line@) == Ok::<EntryModel, ParseError>(e@),
            Err(er) => parse_line_spec(line@) == Err::<EntryModel, ParseError>(er),
        },
{
    let t = trim(line);
    let parts = split_semis(t);
    if parts.len() != 3 {
        return Err(ParseError::MalformedLine);
    }
    proof {
        assert(views_of(parts@)[0] == parts@[0]@);
        assert(views_of(parts@)[1] == parts@[1]@);
        assert(views_of(parts@)[2] == parts@[2]@);
    }
    let sev = match severity_token(parts[0]) {
        Some(sev) => sev,
        None => { return Err(ParseError::UnknownSeverity) },
    };
    let message = parts[1].to_owned();
    let service = parts[2].to_owned();
    Ok(LogEntry { severity: sev, message, service })
}

/// Whether the line is the sentinel that ends input collection: `exit`
/// in any letter case, surrounding whitespace ignored.
pub open spec fn is_exit_line_spec(line: Seq<char>) -> bool {
    lower(trimmed(line)) == "exit"@
}

/// Recognizes the sentinel line that ends input collection.
pub fn is_exit_line(line: &str) -> (r: bool)
    ensures
        r == is_exit_line_spec(line@),
{
    eq_lowercase(trim(line), "exit")
}

} // verus!
