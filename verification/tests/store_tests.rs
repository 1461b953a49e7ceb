use logstore::entry::{LogEntry, Severity};
use logstore::store::Logger;

fn entry(severity: Severity, message: &str, service: &str) -> LogEntry {
    LogEntry { severity, message: message.to_string(), service: service.to_string() }
}

fn assert_entry(e: &LogEntry, severity: Severity, message: &str, service: &str) {
    assert_eq!(e.severity, severity);
    assert_eq!(e.message, message);
    assert_eq!(e.service, service);
}

#[test]
fn new_store_is_empty() {
    let logs = Logger::new();
    assert_eq!(logs.len(), 0);
    assert!(logs.all().is_empty());
}

#[test]
fn all_returns_entries_in_insertion_order() {
    let mut logs = Logger::new();
    logs.add(&entry(Severity::Info, "starting", "web"));
    logs.add(&entry(Severity::Error, "disk full", "storage"));
    logs.add(&entry(Severity::Warning, "slow reply", "web"));
    let all = logs.all();
    assert_eq!(all.len(), 3);
    assert_entry(&all[0], Severity::Info, "starting", "web");
    assert_entry(&all[1], Severity::Error, "disk full", "storage");
    assert_entry(&all[2], Severity::Warning, "slow reply", "web");
}

#[test]
fn duplicate_entries_are_kept() {
    let mut logs = Logger::new();
    logs.add(&entry(Severity::Info, "ping", "web"));
    logs.add(&entry(Severity::Info, "ping", "web"));
    assert_eq!(logs.len(), 2);
    assert_entry(&logs.all()[0], Severity::Info, "ping", "web");
    assert_entry(&logs.all()[1], Severity::Info, "ping", "web");
}

#[test]
fn filter_by_severity_keeps_exactly_the_matching_entries_in_order() {
    let mut logs = Logger::new();
    logs.add(&entry(Severity::Error, "first", "a"));
    logs.add(&entry(Severity::Info, "second", "b"));
    logs.add(&entry(Severity::Error, "third", "c"));
    logs.add(&entry(Severity::Warning, "fourth", "d"));
    let errors = logs.filter_by_severity(Severity::Error);
    assert_eq!(errors.len(), 2);
    assert_entry(&errors[0], Severity::Error, "first", "a");
    assert_entry(&errors[1], Severity::Error, "third", "c");
    for e in &errors {
        assert_eq!(e.severity, Severity::Error);
    }
}

#[test]
fn filter_by_severity_with_no_match_is_empty() {
    let mut logs = Logger::new();
    logs.add(&entry(Severity::Info, "only info", "web"));
    assert!(logs.filter_by_severity(Severity::Error).is_empty());
}

#[test]
fn filter_by_service_keeps_exactly_the_matching_entries_in_order() {
    let mut logs = Logger::new();
    logs.add(&entry(Severity::Info, "one", "auth"));
    logs.add(&entry(Severity::Error, "two", "billing"));
    logs.add(&entry(Severity::Warning, "three", "auth"));
    let auth = logs.filter_by_service("auth");
    assert_eq!(auth.len(), 2);
    assert_entry(&auth[0], Severity::Info, "one", "auth");
    assert_entry(&auth[1], Severity::Warning, "three", "auth");
}

#[test]
fn filter_by_service_is_case_sensitive() {
    let mut logs = Logger::new();
    logs.add(&entry(Severity::Info, "one", "Auth"));
    assert!(logs.filter_by_service("auth").is_empty());
    assert_eq!(logs.filter_by_service("Auth").len(), 1);
}

#[test]
fn filtering_twice_gives_identical_results_and_leaves_the_store_whole() {
    let mut logs = Logger::new();
    logs.add(&entry(Severity::Error, "boom", "auth"));
    logs.add(&entry(Severity::Info, "ok", "auth"));
    logs.add(&entry(Severity::Error, "crash", "billing"));

    let first = logs.filter_by_severity(Severity::Error);
    let second = logs.filter_by_severity(Severity::Error);
    assert_eq!(first.len(), second.len());
    for (a, b) in first.iter().zip(second.iter()) {
        assert_eq!(a.severity, b.severity);
        assert_eq!(a.message, b.message);
        assert_eq!(a.service, b.service);
    }

    let by_service_once = logs.filter_by_service("auth");
    let by_service_twice = logs.filter_by_service("auth");
    assert_eq!(by_service_once.len(), 2);
    assert_eq!(by_service_once.len(), by_service_twice.len());

    let all = logs.all();
    assert_eq!(all.len(), 3);
    assert_entry(&all[0], Severity::Error, "boom", "auth");
    assert_entry(&all[1], Severity::Info, "ok", "auth");
    assert_entry(&all[2], Severity::Error, "crash", "billing");
}
