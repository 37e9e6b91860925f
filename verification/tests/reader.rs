use simple_sentry::errors::CoreError;
use simple_sentry::pipeline::ingest;
use simple_sentry::project::{ProjectDirectory, ProjectItem};
use simple_sentry::store::Database;
use simple_sentry::views::{
    get_data_query, DataContentsParameters, LogGettItemView, ProjectItemView, START_POINTER,
};

fn seeded(n: usize, project: i64) -> Database {
    let mut db = Database::new();
    let mut cache = ProjectDirectory::new();
    let lines: Vec<String> = (0..n)
        .map(|i| {
            format!(
                "{{\"timestamp\":{},\"event_id\":\"e{}\",\"platform\":\"rust\",\"sdk\":{{}},\"contexts\":{{}}}}",
                1000 + i,
                i
            )
        })
        .collect();
    ingest(&mut db, &mut cache, project, &lines);
    db
}

#[test]
fn pagination_walks_newest_first() {
    let db = seeded(10, 3);
    let first: Vec<i64> = db
        .list(START_POINTER, 3, Some(3))
        .iter()
        .map(|r| r.id)
        .collect();
    assert_eq!(first, vec![10, 9, 8]);
    let second: Vec<i64> = db.list(8, 3, Some(3)).iter().map(|r| r.id).collect();
    assert_eq!(second, vec![7, 6, 5]);
}

#[test]
fn short_page_marks_the_beginning() {
    let db = seeded(4, 1);
    let page: Vec<i64> = db.list(3, 5, None).iter().map(|r| r.id).collect();
    assert_eq!(page, vec![2, 1]);
}

#[test]
fn unknown_filter_yields_empty_page() {
    let db = seeded(10, 3);
    assert!(db.list(START_POINTER, 3, Some(99)).is_empty());
}

#[test]
fn default_query_parameters_serve_the_latest_page() {
    let db = seeded(7, 2);
    let rows = get_data_query(
        &db,
        DataContentsParameters {
            pointer: None,
            project: None,
        },
    );
    let ids: Vec<i64> = rows.iter().map(|r| r.id).collect();
    assert_eq!(ids, vec![7, 6, 5, 4, 3]);
}

#[test]
fn get_missing_record_is_not_found() {
    let db = seeded(2, 1);
    assert!(matches!(db.get(99), Err(CoreError::NotFound)));
}

#[test]
fn get_returns_the_ingested_timestamp() {
    let mut db = Database::new();
    let mut cache = ProjectDirectory::new();
    let lines = vec![
        "{\"timestamp\":\"2024-01-02T03:04:05Z\",\"event_id\":\"e1\",\"platform\":\"rust\",\"sdk\":{},\"contexts\":{}}"
            .to_string(),
    ];
    ingest(&mut db, &mut cache, 1, &lines);
    let rec = db.get(1).expect("record 1 should exist");
    assert_eq!(rec.timestamp, 1704164645);
    assert_eq!(
        simple_sentry::tstamp::format_rfc3339(rec.timestamp),
        "2024-01-02T03:04:05Z"
    );
}

#[test]
fn upserting_same_project_many_times_keeps_one_row() {
    let mut db = Database::new();
    let mut created = 0;
    for _ in 0..5 {
        if db.upsert_project(42, None) {
            created += 1;
        }
    }
    assert_eq!(created, 1);
    assert_eq!(db.projects.len(), 1);
    assert_eq!(
        db.projects.iter().filter(|p| p.id == Some(42)).count(),
        1
    );
}

#[test]
fn upsert_keeps_the_first_name() {
    let mut db = Database::new();
    assert!(db.upsert_project(1, Some("alpha".to_string())));
    assert!(!db.upsert_project(1, Some("beta".to_string())));
    assert_eq!(db.projects[0].name, Some("alpha".to_string()));
}

#[test]
fn lookup_name_prefers_the_directory_name() {
    let mut cache = ProjectDirectory::new();
    cache.refresh(vec![
        ProjectItem {
            id: Some(1),
            name: Some("frontend".to_string()),
        },
        ProjectItem {
            id: Some(2),
            name: None,
        },
    ]);
    assert_eq!(cache.lookup_name(1), "frontend");
    assert_eq!(cache.lookup_name(2), "2");
    assert_eq!(cache.lookup_name(3), "3");
}

#[test]
fn list_rows_resolve_project_names() {
    let db = seeded(1, 5);
    let mut cache = ProjectDirectory::new();
    cache.refresh(vec![ProjectItem {
        id: Some(5),
        name: Some("api".to_string()),
    }]);
    let rows = get_data_query(
        &db,
        DataContentsParameters {
            pointer: None,
            project: None,
        },
    );
    let view = rows
        .into_iter()
        .next()
        .unwrap()
        .to_view_item(cache.snapshot());
    assert_eq!(view.project, "api");
    assert_eq!(view.timestamp, "1970-01-01T00:16:40Z");
}

#[test]
fn single_record_view_pretty_prints_documents() {
    let item = simple_sentry::views::LogGettItem {
        logentry: "boom".to_string(),
        timestamp: 0,
        level: "error".to_string(),
        environment: None,
        tags: Some("{\"a\":1}".to_string()),
        breadcrumbs: Some("not json".to_string()),
        exception: None,
    };
    let view = LogGettItemView::of_item(item);
    assert_eq!(view.timestamp, "1970-01-01T00:00:00Z");
    assert_eq!(view.environment, "");
    assert_eq!(view.tags, "{\n  \"a\": 1\n}");
    assert_eq!(view.breadcrumbs, "");
    assert_eq!(view.exception, "");
}

#[test]
fn project_view_defaults() {
    let v = ProjectItemView::of_item(&ProjectItem {
        id: None,
        name: None,
    });
    assert_eq!(v.id, 0);
    assert_eq!(v.name, "");
}

#[test]
fn init_config_parses_entries_and_skips_malformed() {
    let items = simple_sentry::project::parse_init_projects(
        " 1 = frontend ;2=backend;x=bad;3= ;no-equals;4=api",
    );
    let pairs: Vec<(Option<i64>, Option<String>)> =
        items.into_iter().map(|p| (p.id, p.name)).collect();
    assert_eq!(
        pairs,
        vec![
            (Some(1), Some("frontend".to_string())),
            (Some(2), Some("backend".to_string())),
            (Some(4), Some("api".to_string())),
        ]
    );
}

#[test]
fn init_config_empty_text_names_nothing() {
    assert!(simple_sentry::project::parse_init_projects("").is_empty());
}
