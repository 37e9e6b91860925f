//! The ingestion pipeline. Each payload line of one call is handled
//! independently and in arrival order: decode, resolve the timestamp,
//! extract the message, upsert the owning project, persist the canonical
//! record — and refresh the project directory only when the upsert actually
//! created a project row. A payload that fails to decode or to resolve is
//! skipped; it never aborts the call.

use vstd::prelude::*;

use crate::errors::CoreError;
use crate::event::{
    extract_message, parse_event, spec_breadcrumbs_view, spec_event_ok, spec_exception_view,
    spec_extract_message, spec_formatted_of, spec_formatted_msg, spec_le_msg_of,
    spec_level_view, spec_logentry_msg, spec_opt_obj_view, spec_opt_str_view, spec_opt_view,
    LogEvent,
};
use crate::json::{json_to_text, spec_field, spec_json_members, spec_json_text, JsonValue};
use crate::jsonio::{decode_json, spec_decoded_json};
use crate::project::ProjectDirectory;
use crate::store::{spec_has_project, spec_record_of, spec_upsert, Database, LogRecord, RecordDraft};
use crate::tstamp::{resolve, spec_resolve};

verus! {

/// The serialized text of an object with the members `fields`.
pub open spec fn spec_obj_text(fields: Seq<(String, JsonValue)>) -> Seq<char> {
    seq!['{'] + spec_json_members(fields, 0) + seq!['}']
}

/// The string a required string member carries.
pub open spec fn spec_req_str_view(f: Option<JsonValue>) -> Seq<char> {
    match f {
        Some(JsonValue::Str(s)) => s@,
        _ => Seq::<char>::empty(),
    }
}

/// Whether one payload line is accepted by the pipeline: it decodes, it is
/// a well-formed event document, and its timestamp resolves.
pub open spec fn spec_line_accepted(line: Seq<char>) -> bool {
    match spec_decoded_json(line) {
        Some(v) => spec_event_ok(v) && spec_resolve(spec_field(v, "timestamp"@)->0) is Some,
        None => false,
    }
}

/// How many of `lines` the pipeline accepts.
pub open spec fn spec_accepted_count(lines: Seq<String>) -> int
    decreases lines.len(),
{
    if lines.len() == 0 {
        0int
    } else {
        spec_accepted_count(lines.drop_last()) + (if spec_line_accepted(lines.last()@) {
            1int
        } else {
            0int
        })
    }
}

/// The decoded documents of the accepted lines, in arrival order.
pub open spec fn spec_accepted_docs(lines: Seq<String>) -> Seq<JsonValue>
    decreases lines.len(),
{
    if lines.len() == 0 {
        Seq::<JsonValue>::empty()
    } else {
        spec_accepted_docs(lines.drop_last()) + (if spec_line_accepted(lines.last()@) {
            seq![spec_decoded_json(lines.last()@)->0]
        } else {
            Seq::<JsonValue>::empty()
        })
    }
}

/// Whether `rec` is the canonical record of the event document `v` for
/// project `pid` under id `id`: every column derives from the document as
/// the data model prescribes.
pub open spec fn spec_rec_matches(rec: LogRecord, pid: i64, id: int, v: JsonValue) -> bool {
    &&& rec.id == id
    &&& rec.project_id == pid
    &&& Some(rec.timestamp as int) == spec_resolve(spec_field(v, "timestamp"@)->0)
    &&& spec_opt_view(rec.message) == spec_extract_message(
        spec_logentry_msg(spec_field(v, "logentry"@)),
        spec_formatted_msg(spec_field(v, "message"@)),
        spec_exception_view(spec_field(v, "exception"@)),
    )
    &&& rec.level@ == spec_level_view(spec_field(v, "level"@))
    &&& spec_opt_view(rec.environment) == spec_opt_str_view(spec_field(v, "environment"@))
    &&& rec.event_id@ == spec_req_str_view(spec_field(v, "event_id"@))
    &&& rec.platform@ == spec_req_str_view(spec_field(v, "platform"@))
    &&& spec_opt_view(rec.server_name) == spec_opt_str_view(spec_field(v, "server_name"@))
    &&& rec.sdk@ == spec_json_text(spec_field(v, "sdk"@)->0)
    &&& rec.contexts@ == spec_json_text(spec_field(v, "contexts"@)->0)
    &&& rec.user@ == spec_obj_text(spec_opt_obj_view(spec_field(v, "user"@)))
    &&& rec.tags@ == spec_obj_text(spec_opt_obj_view(spec_field(v, "tags"@)))
    &&& rec.extra@ == spec_obj_text(spec_opt_obj_view(spec_field(v, "extra"@)))
    &&& rec.breadcrumbs@ == spec_breadcrumbs_view(spec_field(v, "breadcrumbs"@))
    &&& (match spec_exception_view(spec_field(v, "exception"@)) {
        Some(e) => (rec.exception matches Some(x) && x@ == spec_json_text(e)),
        None => rec.exception is None,
    })
}

/// Builds the canonical record draft of a parsed event: resolves the
/// timestamp, extracts the display message, and serializes the open
/// documents. Fails exactly when the timestamp is unresolvable; the one
/// failing payload is the caller's to skip.
pub fn normalize_event(project_id: i64, ev: LogEvent) -> (r: Result<RecordDraft, CoreError>)
    ensures
        r is Ok <==> spec_resolve(ev.timestamp) is Some,
        r matches Err(e) ==> e == CoreError::UnresolvableTimestamp,
        r matches Ok(d) ==> {
            &&& d.project_id == project_id
            &&& Some(d.timestamp as int) == spec_resolve(ev.timestamp)
            &&& spec_opt_view(d.message) == spec_extract_message(
                spec_le_msg_of(ev),
                spec_formatted_of(ev),
                ev.exception,
            )
            &&& d.level == ev.level
            &&& d.environment == ev.environment
            &&& d.event_id == ev.event_id
            &&& d.platform == ev.platform
            &&& d.server_name == ev.server_name
            &&& d.sdk@ == spec_obj_text(ev.sdk@)
            &&& d.contexts@ == spec_obj_text(ev.contexts@)
            &&& d.user@ == spec_obj_text(ev.user@)
            &&& d.tags@ == spec_obj_text(ev.tags@)
            &&& d.extra@ == spec_obj_text(ev.extra@)
            &&& d.breadcrumbs@ == spec_json_text(ev.breadcrumbs)
            &&& (match ev.exception {
                Some(e) => (d.exception matches Some(x) && x@ == spec_json_text(e)),
                None => d.exception is None,
            })
        },
{
    let timestamp: i64 = match resolve(&ev.timestamp) {
        Ok(t) => t,
        Err(e) => {
            return Err(e);
        },
    };
    let message: Option<String> = extract_message(&ev);
    let exception: Option<String> = match &ev.exception {
        Some(e) => Some(json_to_text(e)),
        None => None,
    };
    let breadcrumbs: String = json_to_text(&ev.breadcrumbs);
    let sdk: String = json_to_text(&JsonValue::Obj(ev.sdk));
    let contexts: String = json_to_text(&JsonValue::Obj(ev.contexts));
    let user: String = json_to_text(&JsonValue::Obj(ev.user));
    let tags: String = json_to_text(&JsonValue::Obj(ev.tags));
    let extra: String = json_to_text(&JsonValue::Obj(ev.extra));
    Ok(
        RecordDraft {
            project_id,
            timestamp,
            message,
            level: ev.level,
            environment: ev.environment,
            event_id: ev.event_id,
            platform: ev.platform,
            server_name: ev.server_name,
            sdk,
            user,
            tags,
            contexts,
            extra,
            breadcrumbs,
            exception,
        },
    )
}

proof fn lemma_accepted_snoc(lines: Seq<String>, l: String)
    ensures
        spec_accepted_count(lines.push(l)) == spec_accepted_count(lines) + (if spec_line_accepted(
            l@,
        ) {
            1int
        } else {
            0int
        }),
        spec_accepted_docs(lines.push(l)) == spec_accepted_docs(lines) + (if spec_line_accepted(
            l@,
        ) {
            seq![spec_decoded_json(l@)->0]
        } else {
            Seq::<JsonValue>::empty()
        }),
{
    assert(lines.push(l).drop_last() =~= lines);
    assert(lines.push(l).last() == l);
}

/// Ingests one call's payload lines for project `project_id`, in arrival
/// order. Each line is handled independently: a line that fails to decode,
/// that is not a well-formed event document, or whose timestamp does not
/// resolve is skipped, and the remaining lines are still processed. Each
/// accepted line becomes one canonical record; the project row is inserted
/// on first need; and the directory is refreshed exactly once when — and
/// only when — that insert created the row.
#[verifier::loop_isolation(false)]
#[verifier::rlimit(100)]
pub fn ingest(
    db: &mut Database,
    cache: &mut ProjectDirectory,
    project_id: i64,
    payloads: &Vec<String>,
) -> (refreshes: usize)
    requires
        old(db).wf(),
        old(db).next_id + payloads@.len() < i64::MAX,
    ensures
        final(db).wf(),
        ({
            let acc = spec_accepted_count(payloads@);
            let docs = spec_accepted_docs(payloads@);
            &&& final(db).records@.len() == old(db).records@.len() + acc
            &&& final(db).records@.subrange(0, old(db).records@.len() as int) == old(db).records@
            &&& final(db).next_id == old(db).next_id + acc
            &&& forall|j: int|
                0 <= j < acc ==> spec_rec_matches(
                    #[trigger] final(db).records@[old(db).records@.len() + j],
                    project_id,
                    old(db).next_id + j,
                    docs[j],
                )
            &&& final(db).projects@ == (if acc > 0 {
                spec_upsert(old(db).projects@, project_id, Option::<String>::None)
            } else {
                old(db).projects@
            })
            &&& refreshes == (if acc > 0 && !spec_has_project(old(db).projects@, project_id) {
                1int
            } else {
                0int
            })
            &&& final(cache)@ == (if refreshes == 1 {
                final(db).projects@
            } else {
                old(cache)@
            })
        }),
{
    let mut refreshes: usize = 0;
    let mut k: usize = 0;
    proof {
        assert(payloads@.subrange(0, 0) =~= Seq::<String>::empty());
    }
    while k < payloads.len()
        invariant
            k <= payloads@.len(),
            db.wf(),
            0 <= spec_accepted_count(payloads@.subrange(0, k as int)) <= k,
            spec_accepted_docs(payloads@.subrange(0, k as int)).len() == spec_accepted_count(
                payloads@.subrange(0, k as int),
            ),
            db.records@.len() == old(db).records@.len() + spec_accepted_count(
                payloads@.subrange(0, k as int),
            ),
            db.records@.subrange(0, old(db).records@.len() as int) == old(db).records@,
            db.next_id == old(db).next_id + spec_accepted_count(payloads@.subrange(0, k as int)),
            forall|j: int|
                0 <= j < spec_accepted_count(payloads@.subrange(0, k as int))
                    ==> spec_rec_matches(
                    #[trigger] db.records@[old(db).records@.len() + j],
                    project_id,
                    old(db).next_id + j,
                    spec_accepted_docs(payloads@.subrange(0, k as int))[j],
                ),
            db.projects@ == (if spec_accepted_count(payloads@.subrange(0, k as int)) > 0 {
                spec_upsert(old(db).projects@, project_id, Option::<String>::None)
            } else {
                old(db).projects@
            }),
            refreshes == (if spec_accepted_count(payloads@.subrange(0, k as int)) > 0
                && !spec_has_project(old(db).projects@, project_id) {
                1int
            } else {
                0int
            }),
            cache@ == (if refreshes == 1 {
                db.projects@
            } else {
                old(cache)@
            }),
        decreases payloads@.len() - k,
    {
        let ghost prefix = payloads@.subrange(0, k as int);
        let ghost line = payloads@[k as int];
        let ghost acc0 = spec_accepted_count(prefix);
        let ghost docs0 = spec_accepted_docs(prefix);
        proof {
            assert(payloads@.subrange(0, k as int + 1) =~= prefix.push(line));
            lemma_accepted_snoc(prefix, line);
        }
        match decode_json(payloads[k].as_str()) {
            Some(v) => {
                let ghost vg = v;
                proof {
                    assert(Some(vg) == spec_decoded_json(line@));
                }
                match parse_event(v) {
                    Ok(ev) => {
                        let ghost evg = ev;
                        match normalize_event(project_id, ev) {
                            Ok(draft) => {
                                let ghost draftg = draft;
                                proof {
                                    assert(evg.timestamp == spec_field(vg, "timestamp"@)->0);
                                    assert(spec_line_accepted(line@));
                                }
                                let ghost pre_projects = db.projects@;
                                let created: bool = db.upsert_project(project_id, None);
                                proof {
                                    if acc0 > 0 {
                                        assert(spec_has_project(pre_projects, project_id)) by {
                                            if spec_has_project(old(db).projects@, project_id) {
                                                let w = choose|w: int|
                                                    0 <= w < old(db).projects@.len() && old(
                                                        db,
                                                    ).projects@[w].id == Some(project_id);
                                                assert(pre_projects[w].id == Some(project_id));
                                            } else {
                                                assert(pre_projects.last().id == Some(
                                                    project_id,
                                                ));
                                            }
                                        }
                                        assert(!created);
                                        assert(db.projects@ == pre_projects);
                                    } else {
                                        assert(pre_projects == old(db).projects@);
                                        assert(db.projects@ == spec_upsert(
                                            old(db).projects@,
                                            project_id,
                                            Option::<String>::None,
                                        ));
                                    }
                                }
                                let id: i64 = db.insert_record(draft);
                                if created {
                                    let snap = crate::project::clone_projects(&db.projects);
                                    cache.refresh(snap);
                                    refreshes = refreshes + 1;
                                }
                                proof {
                                    let rec = spec_record_of(draftg, id);
                                    assert(spec_rec_matches(
                                        rec,
                                        project_id,
                                        old(db).next_id + acc0,
                                        vg,
                                    )) by {
                                        assert(spec_le_msg_of(evg) == spec_logentry_msg(
                                            spec_field(vg, "logentry"@),
                                        )) by {
                                            match evg.logentry {
                                                Some(le) => {},
                                                None => {},
                                            }
                                        }
                                        assert(spec_formatted_of(evg) == spec_formatted_msg(
                                            spec_field(vg, "message"@),
                                        )) by {
                                            match evg.message {
                                                Some(m) => {},
                                                None => {},
                                            }
                                        }
                                        assert(rec.event_id@ == spec_req_str_view(
                                            spec_field(vg, "event_id"@),
                                        ));
                                        assert(rec.platform@ == spec_req_str_view(
                                            spec_field(vg, "platform"@),
                                        ));
                                        assert(spec_field(vg, "sdk"@)->0 == JsonValue::Obj(
                                            evg.sdk,
                                        ));
                                        assert(spec_json_text(JsonValue::Obj(evg.sdk))
                                            == spec_obj_text(evg.sdk@));
                                        assert(spec_field(vg, "contexts"@)->0 == JsonValue::Obj(
                                            evg.contexts,
                                        ));
                                        assert(spec_json_text(JsonValue::Obj(evg.contexts))
                                            == spec_obj_text(evg.contexts@));
                                        assert(rec.breadcrumbs@ == spec_breadcrumbs_view(
                                            spec_field(vg, "breadcrumbs"@),
                                        )) by {
                                            match spec_field(vg, "breadcrumbs"@) {
                                                Some(b) => {},
                                                None => {
                                                    reveal_strlit("{}");
                                                    assert("{}"@.len() == 2);
                                                    let e = evg.breadcrumbs;
                                                    assert(e matches JsonValue::Obj(f)
                                                        && f@.len() == 0);
                                                    assert(spec_json_text(e) =~= "{}"@);
                                                },
                                            }
                                        }
                                    }
                                    let acc1 = spec_accepted_count(prefix.push(line));
                                    let docs1 = spec_accepted_docs(prefix.push(line));
                                    assert(acc1 == acc0 + 1);
                                    assert(docs1 =~= docs0.push(vg));
                                    assert(db.records@.len() == old(db).records@.len() + acc1);
                                    assert(db.records@[old(db).records@.len() + acc0] == rec);
                                    assert(forall|j: int|
                                        0 <= j < acc0 ==> #[trigger] db.records@[old(
                                            db,
                                        ).records@.len() + j] == db.records@.subrange(
                                            0,
                                            db.records@.len() - 1,
                                        )[old(db).records@.len() + j]);
                                    assert(db.records@.subrange(
                                        0,
                                        old(db).records@.len() as int,
                                    ) =~= old(db).records@);
                                    assert(forall|j: int|
                                        0 <= j < acc1 ==> spec_rec_matches(
                                            #[trigger] db.records@[old(db).records@.len() + j],
                                            project_id,
                                            old(db).next_id + j,
                                            docs1[j],
                                        )) by {
                                        assert(forall|j: int| 0 <= j < acc0 ==> docs1[j] == docs0[j]);
                                        assert(docs1[acc0 as int] == vg);
                                    }
                                }
                            },
                            Err(_) => {
                                proof {
                                    assert(!spec_line_accepted(line@));
                                    assert(payloads@.subrange(0, k as int + 1) =~= prefix.push(
                                        line,
                                    ));
                                }
                            },
                        }
                    },
                    Err(_) => {
                        proof {
                            assert(!spec_line_accepted(line@));
                        }
                    },
                }
            },
            None => {
                proof {
                    assert(!spec_line_accepted(line@));
                }
            },
        }
        k = k + 1;
    }
    proof {
        assert(payloads@.subrange(0, payloads@.len() as int) =~= payloads@);
    }
    refreshes
}

} // verus!
