//! Log severities and log entries, with their mathematical models.

use vstd::prelude::*;

verus! {

/// Importance level of a log entry; the closed set of valid severities.
#[derive(Clone, Copy, PartialEq, Eq, Structural, Debug)]
pub enum Severity {
    Info,
    Warning,
    Error,
}

/// The canonical textual rendering of a severity, identical to its name.
pub open spec fn severity_name(s: Severity) -> Seq<char> {
    match s {
        Severity::Info => "Info"@,
        Severity::Warning => "Warning"@,
        Severity::Error => "Error"@,
    }
}

impl Severity {
    /// The canonical name of this severity.
    pub fn name(&self) -> (r: &'static str)
        ensures
            r@ == severity_name(*self),
    {
        match self {
            Severity::Info => "Info",
            Severity::Warning => "Warning",
            Severity::Error => "Error",
        }
    }
}

/// One logged event: severity, human-readable message, originating service.
pub struct LogEntry {
    pub severity: Severity,
    pub message: String,
    pub service: String,
}

/// Mathematical model of a log entry: the severity together with the
/// character sequences of the message and the service name.
#[verifier::ext_equal]
pub struct EntryModel {
    pub severity: Severity,
    pub message: Seq<char>,
    pub service: Seq<char>,
}

impl View for LogEntry {
    type V = EntryModel;

    open spec fn view(&self) -> EntryModel {
        EntryModel { severity: self.severity, message: self.message@, service: self.service@ }
    }
}

impl Clone for LogEntry {
    /// A clone is a fresh entry with equal fields.
    fn clone(&self) -> (r: Self)
        ensures
            r@ == self@,
    {
        LogEntry {
            severity: self.severity,
            message: self.message.clone(),
            service: self.service.clone(),
        }
    }
}

} // verus!
