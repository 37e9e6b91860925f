//! The record store: canonical log records keyed by an auto-incrementing
//! id, and the projects table they belong to. The store is the logical shape
//! of the persisted state; the serving layer binds it to whatever storage
//! engine it likes, and the pipeline and reader are verified against this
//! shape.

use vstd::prelude::*;

use crate::errors::CoreError;
use crate::project::ProjectItem;
use vstd::string::StringExecFns;

verus! {

/// One persisted canonical log record. The open documents ride as their
/// serialized text.
pub struct LogRecord {
    pub id: i64,
    pub project_id: i64,
    pub timestamp: i64,
    pub message: Option<String>,
    pub level: String,
    pub environment: Option<String>,
    pub event_id: String,
    pub platform: String,
    pub server_name: Option<String>,
    pub sdk: String,
    pub user: String,
    pub tags: String,
    pub contexts: String,
    pub extra: String,
    pub breadcrumbs: String,
    pub exception: Option<String>,
}

/// A canonical record before the store has assigned it an id.
pub struct RecordDraft {
    pub project_id: i64,
    pub timestamp: i64,
    pub message: Option<String>,
    pub level: String,
    pub environment: Option<String>,
    pub event_id: String,
    pub platform: String,
    pub server_name: Option<String>,
    pub sdk: String,
    pub user: String,
    pub tags: String,
    pub contexts: String,
    pub extra: String,
    pub breadcrumbs: String,
    pub exception: Option<String>,
}

/// The record `draft` becomes under id `id`.
pub open spec fn spec_record_of(draft: RecordDraft, id: i64) -> LogRecord {
    LogRecord {
        id,
        project_id: draft.project_id,
        timestamp: draft.timestamp,
        message: draft.message,
        level: draft.level,
        environment: draft.environment,
        event_id: draft.event_id,
        platform: draft.platform,
        server_name: draft.server_name,
        sdk: draft.sdk,
        user: draft.user,
        tags: draft.tags,
        contexts: draft.contexts,
        extra: draft.extra,
        breadcrumbs: draft.breadcrumbs,
        exception: draft.exception,
    }
}

/// Whether some project of `items` has id `id`.
pub open spec fn spec_has_project(items: Seq<ProjectItem>, id: i64) -> bool {
    exists|i: int| 0 <= i < items.len() && items[i].id == Some(id)
}

/// The projects table after an insert-if-absent of `id` with `name`.
pub open spec fn spec_upsert(items: Seq<ProjectItem>, id: i64, name: Option<String>) -> Seq<
    ProjectItem,
> {
    if spec_has_project(items, id) {
        items
    } else {
        items.push((ProjectItem { id: Some(id), name }))
    }
}

/// How many projects of `items` have id `id`.
pub open spec fn spec_count_project(items: Seq<ProjectItem>, id: i64) -> int
    decreases items.len(),
{
    if items.len() == 0 {
        0int
    } else {
        (if items.last().id == Some(id) {
            1int
        } else {
            0int
        }) + spec_count_project(items.drop_last(), id)
    }
}

/// Whether every project of `items` has an id, and no two share one.
pub open spec fn spec_projects_wf(items: Seq<ProjectItem>) -> bool {
    &&& forall|i: int| 0 <= i < items.len() ==> (#[trigger] items[i].id) is Some
    &&& forall|i: int, j: int|
        0 <= i < j < items.len() ==> (#[trigger] items[i].id) != (#[trigger] items[j].id)
}

/// The first record of `records` whose id is `id`.
pub open spec fn spec_find_record(records: Seq<LogRecord>, id: i64) -> Option<LogRecord>
    decreases records.len(),
{
    if records.len() == 0 {
        None
    } else if records[0].id == id {
        Some(records[0])
    } else {
        spec_find_record(records.skip(1), id)
    }
}

/// Whether `rec` passes the page filter.
pub open spec fn spec_matches_filter(rec: LogRecord, filter: Option<i64>) -> bool {
    match filter {
        Some(p) => rec.project_id == p,
        None => true,
    }
}

/// The page of at most `n` records with id under `cursor`, newest (highest
/// id) first, restricted to `filter` when one is given. `records` is taken
/// in store order: ascending id.
pub open spec fn spec_page(
    records: Seq<LogRecord>,
    cursor: i64,
    n: int,
    filter: Option<i64>,
) -> Seq<LogRecord>
    decreases records.len(),
{
    if n <= 0 || records.len() == 0 {
        Seq::<LogRecord>::empty()
    } else {
        let last = records.last();
        if last.id < cursor && spec_matches_filter(last, filter) {
            seq![last] + spec_page(records.drop_last(), cursor, n - 1, filter)
        } else {
            spec_page(records.drop_last(), cursor, n, filter)
        }
    }
}

/// The store: the projects table and the records table, with the next id
/// the records table will assign.
pub struct Database {
    pub projects: Vec<ProjectItem>,
    pub records: Vec<LogRecord>,
    pub next_id: i64,
}

impl Database {
    /// The store's invariant: record ids ascend and stay under the next id,
    /// which starts at one; project ids are present and unique.
    pub open spec fn wf(&self) -> bool {
        &&& 1 <= self.next_id
        &&& forall|i: int|
            0 <= i < self.records@.len() ==> 1 <= (#[trigger] self.records@[i].id) < self.next_id
        &&& forall|i: int, j: int|
            0 <= i < j < self.records@.len() ==> (#[trigger] self.records@[i].id) < (
            #[trigger] self.records@[j].id)
        &&& spec_projects_wf(self.projects@)
    }

    /// An empty store.
    pub fn new() -> (r: Database)
        ensures
            r.wf(),
            r.projects@ =~= Seq::<ProjectItem>::empty(),
            r.records@ =~= Seq::<LogRecord>::empty(),
            r.next_id == 1,
    {
        Database { projects: Vec::new(), records: Vec::new(), next_id: 1 }
    }

    /// Inserts a row for project `id` only if none exists, and says whether
    /// it did: insert-if-absent, the upsert the pipeline leans on.
    #[verifier::loop_isolation(false)]
    pub fn upsert_project(&mut self, id: i64, name: Option<String>) -> (created: bool)
        requires
            old(self).wf(),
        ensures
            final(self).wf(),
            created == !spec_has_project(old(self).projects@, id),
            final(self).projects@ == spec_upsert(old(self).projects@, id, name),
            final(self).records == old(self).records,
            final(self).next_id == old(self).next_id,
    {
        let mut i: usize = 0;
        while i < self.projects.len()
            invariant
                i <= self.projects@.len(),
                forall|j: int| 0 <= j < i ==> (#[trigger] self.projects@[j].id) != Some(id),
                self == old(self),
            decreases self.projects@.len() - i,
        {
            let found: bool = match self.projects[i].id {
                Some(pid) => pid == id,
                None => false,
            };
            if found {
                assert(spec_has_project(self.projects@, id));
                return false;
            }
            i = i + 1;
        }
        assert(!spec_has_project(self.projects@, id));
        self.projects.push(ProjectItem { id: Some(id), name });
        proof {
            let items = final(self).projects@;
            assert(forall|k: int|
                0 <= k < items.len() - 1 ==> items[k] == #[trigger] old(self).projects@[k]);
            assert(items.last().id == Some(id));
        }
        true
    }

    /// Persists `draft` under the next id and returns that id.
    pub fn insert_record(&mut self, draft: RecordDraft) -> (id: i64)
        requires
            old(self).wf(),
            old(self).next_id < i64::MAX,
        ensures
            final(self).wf(),
            id == old(self).next_id,
            final(self).records@ == old(self).records@.push(spec_record_of(draft, id)),
            final(self).next_id == old(self).next_id + 1,
            final(self).projects == old(self).projects,
    {
        let id: i64 = self.next_id;
        let RecordDraft {
            project_id,
            timestamp,
            message,
            level,
            environment,
            event_id,
            platform,
            server_name,
            sdk,
            user,
            tags,
            contexts,
            extra,
            breadcrumbs,
            exception,
        } = draft;
        self.records.push(
            LogRecord {
                id,
                project_id,
                timestamp,
                message,
                level,
                environment,
                event_id,
                platform,
                server_name,
                sdk,
                user,
                tags,
                contexts,
                extra,
                breadcrumbs,
                exception,
            },
        );
        self.next_id = id + 1;
        proof {
            let recs = final(self).records@;
            assert(forall|k: int|
                0 <= k < recs.len() - 1 ==> recs[k] == #[trigger] old(self).records@[k]);
        }
        id
    }
}

fn clone_opt_string(o: &Option<String>) -> (r: Option<String>)
    ensures
        r == *o,
{
    match o {
        Some(s) => Some(s.clone()),
        None => None,
    }
}

/// A field-for-field copy of `rec`.
pub fn clone_record(rec: &LogRecord) -> (r: LogRecord)
    ensures
        r == *rec,
{
    LogRecord {
        id: rec.id,
        project_id: rec.project_id,
        timestamp: rec.timestamp,
        message: clone_opt_string(&rec.message),
        level: rec.level.clone(),
        environment: clone_opt_string(&rec.environment),
        event_id: rec.event_id.clone(),
        platform: rec.platform.clone(),
        server_name: clone_opt_string(&rec.server_name),
        sdk: rec.sdk.clone(),
        user: rec.user.clone(),
        tags: rec.tags.clone(),
        contexts: rec.contexts.clone(),
        extra: rec.extra.clone(),
        breadcrumbs: rec.breadcrumbs.clone(),
        exception: clone_opt_string(&rec.exception),
    }
}

impl Database {
    /// The single record with id `id`, or the not-found signal: success
    /// exactly when some record carries that id.
    #[verifier::loop_isolation(false)]
    pub fn get(&self, id: i64) -> (r: Result<LogRecord, CoreError>)
        ensures
            match r {
                Ok(rec) => spec_find_record(self.records@, id) == Some(rec),
                Err(e) => spec_find_record(self.records@, id) is None && e == CoreError::NotFound,
            },
    {
        let mut i: usize = 0;
        assert(self.records@.skip(0) =~= self.records@);
        while i < self.records.len()
            invariant
                i <= self.records@.len(),
                spec_find_record(self.records@, id) == spec_find_record(
                    self.records@.skip(i as int),
                    id,
                ),
            decreases self.records@.len() - i,
        {
            assert(self.records@.skip(i as int)[0] == self.records@[i as int]);
            if self.records[i].id == id {
                return Ok(clone_record(&self.records[i]));
            }
            assert(self.records@.skip(i as int).skip(1) =~= self.records@.skip(i as int + 1));
            i = i + 1;
        }
        Err(CoreError::NotFound)
    }

    /// The page of at most `page_size` records with id under `cursor`,
    /// newest first, restricted to `filter` when one is given. An unknown
    /// filter yields an empty page, never an error; a page shorter than
    /// `page_size` means the start of the data set is reached.
    #[verifier::loop_isolation(false)]
    pub fn list(&self, cursor: i64, page_size: usize, filter: Option<i64>) -> (r: Vec<LogRecord>)
        ensures
            r@ == spec_page(self.records@, cursor, page_size as int, filter),
            r@.len() <= page_size,
    {
        let mut out: Vec<LogRecord> = Vec::new();
        let mut i: usize = self.records.len();
        proof {
            lemma_page_len(self.records@, cursor, page_size as int, filter);
            assert(self.records@.subrange(0, self.records@.len() as int) =~= self.records@);
            assert(Seq::<LogRecord>::empty() + spec_page(
                self.records@,
                cursor,
                page_size as int,
                filter,
            ) =~= spec_page(self.records@, cursor, page_size as int, filter));
        }
        while i > 0 && out.len() < page_size
            invariant
                i <= self.records@.len(),
                out@.len() <= page_size,
                spec_page(self.records@, cursor, page_size as int, filter) == out@ + spec_page(
                    self.records@.subrange(0, i as int),
                    cursor,
                    page_size - out@.len(),
                    filter,
                ),
            decreases i,
        {
            let rec = &self.records[i - 1];
            let passes: bool = rec.id < cursor && (match filter {
                Some(p) => rec.project_id == p,
                None => true,
            });
            proof {
                assert(self.records@.subrange(0, i as int).drop_last() =~= self.records@.subrange(
                    0,
                    i as int - 1,
                ));
                assert(self.records@.subrange(0, i as int).last() == self.records@[i as int - 1]);
            }
            if passes {
                out.push(clone_record(rec));
                proof {
                    let pre = spec_page(self.records@, cursor, page_size as int, filter);
                    assert(out@.drop_last() + (seq![
                        self.records@[i as int - 1],
                    ] + spec_page(
                        self.records@.subrange(0, i as int - 1),
                        cursor,
                        page_size - out@.len(),
                        filter,
                    )) =~= out@ + spec_page(
                        self.records@.subrange(0, i as int - 1),
                        cursor,
                        page_size - out@.len(),
                        filter,
                    ));
                }
            }
            i = i - 1;
        }
        proof {
            if out@.len() == page_size {
                assert(spec_page(
                    self.records@.subrange(0, i as int),
                    cursor,
                    page_size - out@.len(),
                    filter,
                ) =~= Seq::<LogRecord>::empty());
            } else {
                assert(i == 0);
                assert(self.records@.subrange(0, 0) =~= Seq::<LogRecord>::empty());
            }
            assert(out@ + Seq::<LogRecord>::empty() =~= out@);
        }
        out
    }
}

/// A page never exceeds its size.
proof fn lemma_page_len(records: Seq<LogRecord>, cursor: i64, n: int, filter: Option<i64>)
    ensures
        spec_page(records, cursor, n, filter).len() <= (if n >= 0 {
            n
        } else {
            0
        }),
    decreases records.len(),
{
    if !(n <= 0 || records.len() == 0) {
        lemma_page_len(records.drop_last(), cursor, n - 1, filter);
        lemma_page_len(records.drop_last(), cursor, n, filter);
    }
}

/// How many projects with id `id` a well-formed table holds: one when the
/// table knows the id, none otherwise.
pub proof fn lemma_count_unique(items: Seq<ProjectItem>, id: i64)
    requires
        spec_projects_wf(items),
    ensures
        spec_count_project(items, id) == (if spec_has_project(items, id) {
            1int
        } else {
            0int
        }),
    decreases items.len(),
{
    if items.len() > 0 {
        assert(spec_projects_wf(items.drop_last())) by {
            assert(forall|k: int|
                0 <= k < items.len() - 1 ==> items.drop_last()[k] == #[trigger] items[k]);
        }
        lemma_count_unique(items.drop_last(), id);
        if items.last().id == Some(id) {
            assert(!spec_has_project(items.drop_last(), id)) by {
                if spec_has_project(items.drop_last(), id) {
                    let w = choose|w: int|
                        0 <= w < items.drop_last().len() && items.drop_last()[w].id == Some(id);
                    assert(items[w].id == items[items.len() - 1].id);
                    assert(false);
                }
            }
            assert(spec_has_project(items, id)) by {
                assert(items[items.len() - 1].id == Some(id));
            }
        } else {
            assert(spec_has_project(items, id) == spec_has_project(items.drop_last(), id)) by {
                if spec_has_project(items, id) {
                    let w = choose|w: int| 0 <= w < items.len() && items[w].id == Some(id);
                    assert(w < items.len() - 1);
                    assert(items.drop_last()[w].id == Some(id));
                }
            }
        }
    }
}

/// Upserting a project id into a well-formed table leaves exactly one row
/// with that id, however many times it is repeated: the first upsert
/// inserts the row, and each later one, whatever name it offers, changes
/// nothing.
pub proof fn lemma_upsert_idempotent(
    items: Seq<ProjectItem>,
    id: i64,
    name1: Option<String>,
    name2: Option<String>,
)
    requires
        spec_projects_wf(items),
    ensures
        spec_count_project(spec_upsert(items, id, name1), id) == 1,
        spec_upsert(spec_upsert(items, id, name1), id, name2) == spec_upsert(items, id, name1),
        spec_projects_wf(spec_upsert(items, id, name1)),
{
    let once = spec_upsert(items, id, name1);
    if spec_has_project(items, id) {
        lemma_count_unique(items, id);
    } else {
        assert(once == items.push((ProjectItem { id: Some(id), name: name1 })));
        assert(spec_projects_wf(once)) by {
            assert(forall|k: int| 0 <= k < items.len() ==> once[k] == #[trigger] items[k]);
            assert(once.last().id == Some(id));
            assert(forall|k: int|
                0 <= k < items.len() ==> (#[trigger] once[k].id) != Some(id)) by {
                if exists|k: int| 0 <= k < items.len() && (#[trigger] once[k].id) == Some(id) {
                    let w = choose|w: int| 0 <= w < items.len() && once[w].id == Some(id);
                    assert(items[w].id == Some(id));
                    assert(spec_has_project(items, id));
                }
            }
        }
        lemma_count_unique(once, id);
        assert(spec_has_project(once, id)) by {
            assert(once[once.len() - 1].id == Some(id));
        }
    }
    assert(spec_has_project(once, id)) by {
        if spec_has_project(items, id) {
            let w = choose|w: int| 0 <= w < items.len() && items[w].id == Some(id);
            assert(once[w].id == Some(id));
        } else {
            assert(once[once.len() - 1].id == Some(id));
        }
    }
}

/// What a page holds, for a store whose ids ascend: every row lies under
/// the cursor and passes the filter; every row is a record of the store;
/// rows come newest first; and a page shorter than asked holds every
/// qualifying record — the reader has reached the beginning of the data
/// set.
#[verifier::rlimit(100)]
pub proof fn lemma_page_sound(records: Seq<LogRecord>, cursor: i64, n: int, filter: Option<i64>)
    requires
        forall|i: int, j: int|
            0 <= i < j < records.len() ==> (#[trigger] records[i].id) < (#[trigger] records[j].id),
    ensures
        ({
            let page = spec_page(records, cursor, n, filter);
            &&& forall|i: int|
                0 <= i < page.len() ==> (#[trigger] page[i]).id < cursor && spec_matches_filter(
                    page[i],
                    filter,
                )
            &&& forall|i: int|
                0 <= i < page.len() ==> exists|k: int|
                    0 <= k < records.len() && records[k] == #[trigger] page[i]
            &&& forall|i: int, j: int|
                0 <= i < j < page.len() ==> (#[trigger] page[i]).id > (#[trigger] page[j]).id
            &&& page.len() < n ==> forall|k: int|
                0 <= k < records.len() && (#[trigger] records[k]).id < cursor
                    && spec_matches_filter(records[k], filter) ==> exists|i: int|
                    0 <= i < page.len() && page[i] == records[k]
        }),
    decreases records.len(),
{
    if n <= 0 || records.len() == 0 {
    } else {
        let page = spec_page(records, cursor, n, filter);
        let last = records.last();
        let prior = records.drop_last();
        assert(forall|i: int, j: int|
            0 <= i < j < prior.len() ==> (#[trigger] prior[i].id) < (#[trigger] prior[j].id)) by {
            assert(forall|k: int| 0 <= k < prior.len() ==> prior[k] == #[trigger] records[k]);
        }
        assert(forall|k: int| 0 <= k < prior.len() ==> prior[k] == #[trigger] records[k]);
        if last.id < cursor && spec_matches_filter(last, filter) {
            lemma_page_sound(prior, cursor, n - 1, filter);
            let sub = spec_page(prior, cursor, n - 1, filter);
            assert(page == seq![last] + sub);
            assert(page[0] == last);
            assert(forall|i: int| 1 <= i < page.len() ==> #[trigger] page[i] == sub[i - 1]);
            // every row of the sub-page is an earlier record, so its id is
            // under the last record's
            assert(forall|i: int|
                1 <= i < page.len() ==> (#[trigger] page[i]).id < last.id) by {
                assert(forall|i: int|
                    0 <= i < sub.len() ==> (exists|k: int|
                        0 <= k < prior.len() && prior[k] == #[trigger] sub[i]));
                assert forall|i: int| 1 <= i < page.len() implies (#[trigger] page[i]).id
                    < last.id by {
                    let k = choose|k: int| 0 <= k < prior.len() && prior[k] == sub[i - 1];
                    assert(records[k].id < records[records.len() - 1].id);
                }
            }
            if page.len() < n {
                assert forall|k: int|
                    0 <= k < records.len() && (#[trigger] records[k]).id < cursor
                        && spec_matches_filter(records[k], filter) implies exists|i: int|
                    0 <= i < page.len() && page[i] == records[k] by {
                    if k == records.len() - 1 {
                        assert(page[0] == records[k]);
                    } else {
                        let i = choose|i: int| 0 <= i < sub.len() && sub[i] == prior[k];
                        assert(page[i + 1] == records[k]);
                    }
                }
            }
        } else {
            lemma_page_sound(prior, cursor, n, filter);
            assert(page == spec_page(prior, cursor, n, filter));
            if page.len() < n {
                assert forall|k: int|
                    0 <= k < records.len() && (#[trigger] records[k]).id < cursor
                        && spec_matches_filter(records[k], filter) implies exists|i: int|
                    0 <= i < page.len() && page[i] == records[k] by {
                    assert(k != records.len() - 1);
                    let i = choose|i: int| 0 <= i < page.len() && page[i] == prior[k];
                    assert(page[i] == records[k]);
                }
            }
        }
    }
}

} // verus!
