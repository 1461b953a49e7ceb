use logstore::entry::{LogEntry, Severity};
use logstore::render::{render_entries, render_entry};
use logstore::store::Logger;

fn entry(severity: Severity, message: &str, service: &str) -> LogEntry {
    LogEntry { severity, message: message.to_string(), service: service.to_string() }
}

#[test]
fn severity_names_match_their_variants() {
    assert_eq!(Severity::Info.name(), "Info");
    assert_eq!(Severity::Warning.name(), "Warning");
    assert_eq!(Severity::Error.name(), "Error");
}

#[test]
fn one_entry_renders_as_three_labelled_lines() {
    let lines = render_entry(&entry(Severity::Error, "disk full", "auth-service"));
    assert_eq!(lines, vec!["level: Error", "Message: disk full", "Service: auth-service"]);
}

#[test]
fn entries_render_in_order() {
    let mut logs = Logger::new();
    logs.add(&entry(Severity::Info, "up", "web"));
    logs.add(&entry(Severity::Warning, "slow", "db"));
    let lines = render_entries(logs.all());
    assert_eq!(
        lines,
        vec![
            "level: Info",
            "Message: up",
            "Service: web",
            "level: Warning",
            "Message: slow",
            "Service: db",
        ]
    );
}

#[test]
fn no_entries_render_as_no_lines() {
    let logs = Logger::new();
    assert!(render_entries(logs.all()).is_empty());
}
