use simple_sentry::errors::CoreError;
use simple_sentry::event::{extract_message, parse_event};
use simple_sentry::jsonio::decode_json;
use simple_sentry::pipeline::ingest;
use simple_sentry::project::ProjectDirectory;
use simple_sentry::store::Database;

fn event_line(timestamp: &str, extras: &str) -> String {
    format!(
        "{{\"timestamp\":{},\"event_id\":\"e1\",\"platform\":\"rust\",\"sdk\":{{}},\"contexts\":{{}}{}}}",
        timestamp, extras
    )
}

fn parse(line: &str) -> simple_sentry::event::LogEvent {
    let doc = decode_json(line).expect("line should decode");
    parse_event(doc).expect("line should be a well-formed event")
}

#[test]
fn new_project_creates_one_row_and_one_refresh() {
    let mut db = Database::new();
    let mut cache = ProjectDirectory::new();
    let lines = vec![event_line("1704164645", "")];
    let refreshes = ingest(&mut db, &mut cache, 7, &lines);
    assert_eq!(refreshes, 1);
    assert_eq!(db.projects.len(), 1);
    assert_eq!(db.projects[0].id, Some(7));
    assert_eq!(db.projects[0].name, None);
    assert_eq!(db.records.len(), 1);
    assert_eq!(cache.snapshot().len(), 1);

    let refreshes2 = ingest(&mut db, &mut cache, 7, &lines);
    assert_eq!(refreshes2, 0);
    assert_eq!(db.projects.len(), 1);
    assert_eq!(db.records.len(), 2);
}

#[test]
fn bad_payloads_are_skipped_and_siblings_survive() {
    let mut db = Database::new();
    let mut cache = ProjectDirectory::new();
    let lines = vec![
        "this is not json".to_string(),
        event_line("\"not-a-date\"", ""),
        "{\"platform\":\"rust\"}".to_string(),
        event_line("1704164645", ""),
    ];
    ingest(&mut db, &mut cache, 1, &lines);
    assert_eq!(db.records.len(), 1);
    assert_eq!(db.records[0].timestamp, 1704164645);
}

#[test]
fn all_bad_payloads_touch_nothing() {
    let mut db = Database::new();
    let mut cache = ProjectDirectory::new();
    let lines = vec!["{".to_string(), event_line("\"nope\"", "")];
    let refreshes = ingest(&mut db, &mut cache, 1, &lines);
    assert_eq!(refreshes, 0);
    assert_eq!(db.projects.len(), 0);
    assert_eq!(db.records.len(), 0);
    assert_eq!(cache.snapshot().len(), 0);
}

#[test]
fn records_keep_arrival_order_and_ids_ascend() {
    let mut db = Database::new();
    let mut cache = ProjectDirectory::new();
    let lines = vec![
        event_line("1", ""),
        event_line("2", ""),
        event_line("3", ""),
    ];
    ingest(&mut db, &mut cache, 5, &lines);
    let ids: Vec<i64> = db.records.iter().map(|r| r.id).collect();
    let stamps: Vec<i64> = db.records.iter().map(|r| r.timestamp).collect();
    assert_eq!(ids, vec![1, 2, 3]);
    assert_eq!(stamps, vec![1, 2, 3]);
}

#[test]
fn logentry_message_wins_over_formatted() {
    let ev = parse(&event_line(
        "1",
        ",\"logentry\":{\"message\":\"A\"},\"message\":{\"message\":\"x\",\"formatted\":\"B\",\"params\":[]}",
    ));
    assert_eq!(extract_message(&ev), Some("A".to_string()));
}

#[test]
fn nested_exception_value_is_used() {
    let ev = parse(&event_line(
        "1",
        ",\"exception\":{\"values\":[{\"value\":\"B\"}]}",
    ));
    assert_eq!(extract_message(&ev), Some("B".to_string()));
}

#[test]
fn flat_exception_value_is_used() {
    let ev = parse(&event_line("1", ",\"exception\":[{\"value\":\"C\"}]"));
    assert_eq!(extract_message(&ev), Some("C".to_string()));
}

#[test]
fn exception_without_value_is_serialized_whole() {
    let ev = parse(&event_line("1", ",\"exception\":{\"type\":\"Oops\"}"));
    assert_eq!(extract_message(&ev), Some("{\"type\":\"Oops\"}".to_string()));
}

#[test]
fn no_source_means_no_message() {
    let ev = parse(&event_line("1", ""));
    assert_eq!(extract_message(&ev), None);
}

#[test]
fn empty_sources_fall_through() {
    let ev = parse(&event_line(
        "1",
        ",\"logentry\":{\"message\":\"\"},\"message\":{\"message\":0,\"formatted\":\"B\",\"params\":[]}",
    ));
    assert_eq!(extract_message(&ev), Some("B".to_string()));
}

#[test]
fn level_defaults_to_error() {
    let ev = parse(&event_line("1", ""));
    assert_eq!(ev.level, "error");
    let ev2 = parse(&event_line("1", ",\"level\":\"warning\""));
    assert_eq!(ev2.level, "warning");
}

#[test]
fn missing_required_fields_are_decode_errors() {
    let doc = decode_json("{\"timestamp\":1}").unwrap();
    assert!(matches!(parse_event(doc), Err(CoreError::DecodeError)));
}

#[test]
fn unknown_members_are_retained() {
    let ev = parse(&event_line("1", ",\"release\":\"1.2.3\",\"dist\":\"a\""));
    assert_eq!(ev.unknown.len(), 2);
    assert_eq!(ev.unknown[0].0, "dist");
    assert_eq!(ev.unknown[1].0, "release");
}

#[test]
fn stored_record_carries_normalized_columns() {
    let mut db = Database::new();
    let mut cache = ProjectDirectory::new();
    let lines = vec![event_line(
        "\"2024-01-02T03:04:05Z\"",
        ",\"logentry\":{\"message\":\"boom\"},\"environment\":\"prod\",\"server_name\":\"web1\",\"tags\":{\"k\":\"v\"},\"user\":{\"id\":\"u1\"}",
    )];
    ingest(&mut db, &mut cache, 9, &lines);
    let rec = &db.records[0];
    assert_eq!(rec.project_id, 9);
    assert_eq!(rec.timestamp, 1704164645);
    assert_eq!(rec.message, Some("boom".to_string()));
    assert_eq!(rec.level, "error");
    assert_eq!(rec.environment, Some("prod".to_string()));
    assert_eq!(rec.server_name, Some("web1".to_string()));
    assert_eq!(rec.event_id, "e1");
    assert_eq!(rec.platform, "rust");
    assert_eq!(rec.sdk, "{}");
    assert_eq!(rec.tags, "{\"k\":\"v\"}");
    assert_eq!(rec.user, "{\"id\":\"u1\"}");
    assert_eq!(rec.breadcrumbs, "{}");
    assert_eq!(rec.exception, None);
}
