//! The read side: page parameters, the row shapes the reader serves, and
//! their display forms — timestamps rendered as offset date-times, project
//! ids replaced by names from the directory, and open documents
//! pretty-printed.

use vstd::prelude::*;

use crate::json::JsonValue;
use crate::jsonio::{format_json, spec_pretty_json};
use crate::project::{lookup_name_in, spec_lookup_name, ProjectItem};
use crate::store::{clone_record, spec_page, Database, LogRecord};
use crate::tstamp::{format_rfc3339, spec_max_epoch, spec_min_epoch, spec_rfc3339z_text};
use vstd::string::StringExecFns;

verus! {

/// The cursor meaning "no upper bound yet": above every assignable id.
pub const START_POINTER: i64 = 9223372036854775807;

/// How many records one page holds.
pub const ITERATION_SIZE: u32 = 5;

/// What a reader may pass: an optional cursor and an optional project
/// filter.
pub struct DataContentsParameters {
    pub pointer: Option<i64>,
    pub project: Option<i64>,
}

/// One row of the record list.
pub struct LogListItem {
    pub id: i64,
    pub project_id: i64,
    pub timestamp: i64,
    pub logentry: String,
    pub event_id: String,
    pub level: String,
}

/// One record fetched alone.
pub struct LogGettItem {
    pub logentry: String,
    pub timestamp: i64,
    pub level: String,
    pub environment: Option<String>,
    pub tags: Option<String>,
    pub breadcrumbs: Option<String>,
    pub exception: Option<String>,
}

/// A list row ready for display.
pub struct LogListItemView {
    pub id: i64,
    pub project: String,
    pub timestamp: String,
    pub logentry: String,
    pub event_id: String,
    pub level: String,
}

/// A single record ready for display.
pub struct LogGettItemView {
    pub logentry: String,
    pub timestamp: String,
    pub level: String,
    pub environment: String,
    pub tags: String,
    pub breadcrumbs: String,
    pub exception: String,
}

/// A project ready for display.
pub struct ProjectItemView {
    pub id: i64,
    pub name: String,
}

/// The empty-or-missing cases of an optional string collapse to empty.
pub open spec fn spec_unwrap_or_empty(o: Option<String>) -> Seq<char> {
    match o {
        Some(s) => s@,
        None => Seq::<char>::empty(),
    }
}

/// What pretty-printing an optional document column yields for display: the
/// pretty form when the column holds well-formed JSON, and the empty string
/// when it is absent or malformed.
pub open spec fn spec_pretty_or_empty(o: Option<String>) -> Seq<char> {
    match o {
        Some(t) => match spec_pretty_json(t@) {
            Some(p) => p,
            None => Seq::<char>::empty(),
        },
        None => Seq::<char>::empty(),
    }
}

fn pretty_or_empty(o: &Option<String>) -> (r: String)
    ensures
        r@ == spec_pretty_or_empty(*o),
{
    match o {
        Some(t) => match format_json(t.as_str()) {
            Some(p) => p,
            None => String::new(),
        },
        None => String::new(),
    }
}

impl LogListItem {
    /// The display form of this row: the project id resolved to a name
    /// through the given directory snapshot (falling back to the id's
    /// decimal rendering), and the timestamp rendered as an offset
    /// date-time.
    pub fn to_view_item(self, projects: &Vec<ProjectItem>) -> (r: LogListItemView)
        requires
            spec_min_epoch() <= self.timestamp <= spec_max_epoch(),
        ensures
            r.id == self.id,
            r.project@ == spec_lookup_name(projects@, self.project_id),
            r.timestamp@ == spec_rfc3339z_text(self.timestamp as int),
            r.logentry == self.logentry,
            r.event_id == self.event_id,
            r.level == self.level,
    {
        let project: String = lookup_name_in(projects, self.project_id);
        LogListItemView {
            id: self.id,
            project,
            timestamp: format_rfc3339(self.timestamp),
            logentry: self.logentry,
            event_id: self.event_id,
            level: self.level,
        }
    }
}

impl LogGettItemView {
    /// The display form of a single fetched record: the timestamp rendered
    /// as an offset date-time, absent strings collapsed to empty, and the
    /// document columns pretty-printed (malformed or absent ones collapse
    /// to empty).
    pub fn of_item(value: LogGettItem) -> (r: LogGettItemView)
        requires
            spec_min_epoch() <= value.timestamp <= spec_max_epoch(),
        ensures
            r.logentry == value.logentry,
            r.timestamp@ == spec_rfc3339z_text(value.timestamp as int),
            r.level == value.level,
            r.environment@ == spec_unwrap_or_empty(value.environment),
            r.tags@ == spec_pretty_or_empty(value.tags),
            r.breadcrumbs@ == spec_pretty_or_empty(value.breadcrumbs),
            r.exception@ == spec_pretty_or_empty(value.exception),
    {
        let environment: String = match value.environment {
            Some(e) => e,
            None => String::new(),
        };
        LogGettItemView {
            timestamp: format_rfc3339(value.timestamp),
            logentry: value.logentry,
            level: value.level,
            environment,
            tags: pretty_or_empty(&value.tags),
            breadcrumbs: pretty_or_empty(&value.breadcrumbs),
            exception: pretty_or_empty(&value.exception),
        }
    }
}

impl ProjectItemView {
    /// The display form of a project row: a missing id shows as zero, a
    /// missing name as empty.
    pub fn of_item(value: &ProjectItem) -> (r: ProjectItemView)
        ensures
            r.id == (match value.id {
                Some(i) => i,
                None => 0,
            }),
            r.name@ == spec_unwrap_or_empty(value.name),
    {
        let id: i64 = match value.id {
            Some(i) => i,
            None => 0,
        };
        let name: String = match &value.name {
            Some(n) => n.clone(),
            None => String::new(),
        };
        ProjectItemView { id, name }
    }
}

/// Runs one page query against the store: the cursor defaults to the start
/// pointer, the page size is fixed, and the optional project filter is
/// honored. Returns the page rows, newest first.
#[verifier::loop_isolation(false)]
pub fn get_data_query(db: &Database, parameters: DataContentsParameters) -> (r: Vec<LogListItem>)
    ensures
        ({
            let cursor = (match parameters.pointer {
                Some(p) => p,
                None => START_POINTER,
            });
            let page = spec_page(db.records@, cursor, ITERATION_SIZE as int, parameters.project);
            &&& r@.len() == page.len()
            &&& forall|i: int|
                0 <= i < page.len() ==> {
                    let rec = #[trigger] page[i];
                    &&& r@[i].id == rec.id
                    &&& r@[i].project_id == rec.project_id
                    &&& r@[i].timestamp == rec.timestamp
                    &&& r@[i].logentry@ == spec_unwrap_or_empty(rec.message)
                    &&& r@[i].event_id == rec.event_id
                    &&& r@[i].level == rec.level
                }
        }),
{
    let cursor: i64 = match parameters.pointer {
        Some(p) => p,
        None => START_POINTER,
    };
    let page: Vec<LogRecord> = db.list(cursor, ITERATION_SIZE as usize, parameters.project);
    let mut out: Vec<LogListItem> = Vec::new();
    let mut i: usize = 0;
    while i < page.len()
        invariant
            i <= page@.len(),
            out@.len() == i,
            forall|j: int|
                0 <= j < i ==> {
                    let rec = #[trigger] page@[j];
                    &&& out@[j].id == rec.id
                    &&& out@[j].project_id == rec.project_id
                    &&& out@[j].timestamp == rec.timestamp
                    &&& out@[j].logentry@ == spec_unwrap_or_empty(rec.message)
                    &&& out@[j].event_id == rec.event_id
                    &&& out@[j].level == rec.level
                },
        decreases page@.len() - i,
    {
        let rec = clone_record(&page[i]);
        let logentry: String = match rec.message {
            Some(m) => m,
            None => String::new(),
        };
        out.push(
            LogListItem {
                id: rec.id,
                project_id: rec.project_id,
                timestamp: rec.timestamp,
                logentry,
                event_id: rec.event_id,
                level: rec.level,
            },
        );
        i = i + 1;
    }
    out
}

/// The single-record view a stored record yields.
#[verifier::loop_isolation(false)]
pub fn get_item_of_record(rec: &LogRecord) -> (r: LogGettItem)
    ensures
        r.logentry@ == spec_unwrap_or_empty(rec.message),
        r.timestamp == rec.timestamp,
        r.level == rec.level,
        r.environment == rec.environment,
        (r.tags matches Some(t) && t == rec.tags),
        (r.breadcrumbs matches Some(b) && b == rec.breadcrumbs),
        r.exception == rec.exception,
{
    let c = clone_record(rec);
    let logentry: String = match c.message {
        Some(m) => m,
        None => String::new(),
    };
    LogGettItem {
        logentry,
        timestamp: c.timestamp,
        level: c.level,
        environment: c.environment,
        tags: Some(c.tags),
        breadcrumbs: Some(c.breadcrumbs),
        exception: c.exception,
    }
}

} // verus!
