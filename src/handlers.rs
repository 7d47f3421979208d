//! The operations that a transport layer exposes, on plain values: each takes
//! the store and decoded request values, and returns a result or one of the
//! error kinds. A caller that shares the store between threads runs each
//! operation under the store's lock (see `repository`).

use vstd::prelude::*;
use crate::import::{
    creates_view, delimited_outcome, error_refs, index_refs, invalid_positions, multipart_outcome,
    pair_valid, strict_outcome, task_pairs, ImportError, ImportReport,
};
use crate::query::{
    effective_page, effective_per_page, listing, page_slice, priority_is, query_tasks,
    search_by_priority, search_by_tag, tagged, ListPage, ListParams,
};
use crate::stats::{compute_stats, Stats};
use crate::store::{find, has_id, index_of, listed, unlisted, views, TaskStore};
use crate::tags::{lemma_normalize_wf, normalize_spec, normalize_tags, tag_ok, tag_problem, validate_tags};
use crate::task::{
    invalid_priority_text, priority_named, strings_view, tags_wf, Priority, Task, TaskCreate,
    TaskUpdate, TaskView,
};
use crate::text::{lower_of, trim_spec};

verus! {

/// Why a request failed.
#[derive(Clone, Debug, PartialEq, Eq)]
pub enum ApiError {
    /// The identifier is not in a form that identifiers take.
    InvalidId,
    /// No task has the identifier.
    NotFound,
    /// An input value breaks a rule; the text says which.
    Validation(String),
    /// An import was rejected as a whole.
    Import(ImportError),
}

/// The identifier that a string denotes, if it is in one of the textual forms
/// of the uuid crate.
pub uninterp spec fn uuid_of(s: Seq<char>) -> Option<u128>;

/// Relies on `uuid::Uuid::parse_str`: the identifier the string denotes, as a
/// 128-bit value, or nothing if it is not a valid identifier; the result
/// depends on the characters alone.
#[verifier::external_body]
fn parse_id(s: &str) -> (r: Option<u128>)
    ensures
        r == uuid_of(s@),
{
    uuid::Uuid::parse_str(s).ok().map(|u| u.as_u128())
}

/// New tags for a task.
#[derive(Clone, Debug)]
pub struct TagsPayload {
    pub tags: Vec<String>,
}

/// A tag to search for.
#[derive(Clone, Debug)]
pub struct TagQuery {
    pub tag: String,
}

/// A new priority for a task, by name.
#[derive(Clone, Debug)]
pub struct PriorityPayload {
    pub priority: String,
}

/// A decoded import request, by format.
#[derive(Clone, Debug)]
pub enum ImportInput {
    /// Creation records, decoded from a structured payload.
    Structured(Vec<TaskCreate>),
    /// Delimited text with a header row.
    Delimited(Vec<u8>),
    /// A multipart payload and its content type.
    Multipart { body: Vec<u8>, content_type: Vec<u8> },
}

/// The import errors of a result, with any other error read as an unsupported format.
pub open spec fn as_import(r: Result<ImportReport, ApiError>) -> Result<ImportReport, ImportError> {
    match r {
        Ok(rep) => Ok(rep),
        Err(ApiError::Import(e)) => Err(e),
        Err(_) => Err(ImportError::UnsupportedFormat),
    }
}

/// Every raw tag of the list is accepted.
pub open spec fn tags_acceptable(tags: Seq<String>) -> bool {
    forall|i: int| 0 <= i < tags.len() ==> tag_ok(#[trigger] tags[i]@)
}

/// Create a task from `payload`, which must have a title with more than
/// whitespace, with an identifier that the store has never issued.
pub fn create_task(store: &mut TaskStore, payload: &TaskCreate) -> (r: Result<Task, ApiError>)
    requires
        old(store).wf(),
    ensures
        final(store).wf(),
        r is Ok <==> payload.is_valid(),
        r matches Err(e) ==> e == ApiError::Validation(e->Validation_0) && e->Validation_0@
            == "title must not be empty"@ && final(store)@ == old(store)@ && final(store).issued()
            == old(store).issued(),
        r matches Ok(t) ==> {
            &&& !old(store).issued().contains(t.id)
            &&& !has_id(old(store)@, t.id)
            &&& final(store).issued() == old(store).issued().insert(t.id)
            &&& final(store)@ == old(store)@.push(t@)
            &&& t@.title == payload.title@
            &&& t@.description == payload.description@
            &&& !t@.completed
            &&& t@.tags.len() == 0
            &&& t@.priority == Priority::Medium
            &&& t@.created_at == t@.updated_at
        },
{
    match payload.validate() {
        Ok(()) => Ok(store.create(payload)),
        Err(m) => Err(ApiError::Validation(m)),
    }
}

/// List tasks: order by the sort directive, keep the requested completion
/// state, then serve the requested page.
pub fn get_tasks(store: &TaskStore, params: &ListParams) -> (r: ListPage)
    requires
        store.wf(),
    ensures
        r.page == effective_page(params.page),
        r.per_page == effective_per_page(params.per_page),
        r.total == listing(store@, *params).len(),
        views(r.items@) == page_slice(listing(store@, *params), r.page as int, r.per_page as int),
{
    query_tasks(store.list(), params)
}

/// The task with identifier `id`.
pub fn get_task(store: &TaskStore, id: &str) -> (r: Result<Task, ApiError>)
    requires
        store.wf(),
    ensures
        match uuid_of(id@) {
            None => r == Err::<Task, ApiError>(ApiError::InvalidId),
            Some(u) => match find(store@, u) {
                Some(tv) => r matches Ok(t) && t@ == tv && t.id == u,
                None => r == Err::<Task, ApiError>(ApiError::NotFound),
            },
        },
{
    match parse_id(id) {
        None => Err(ApiError::InvalidId),
        Some(u) => match store.get(u) {
            Some(t) => {
                proof {
                    let k = index_of(store@, u);
                    assert(store@[k].id == u);
                }
                Ok(t)
            },
            None => Err(ApiError::NotFound),
        },
    }
}

/// Apply the fields present in `upd` to the task with identifier `id`.
pub fn update_task(store: &mut TaskStore, id: &str, upd: TaskUpdate) -> (r: Result<Task, ApiError>)
    requires
        old(store).wf(),
    ensures
        final(store).wf(),
        r is Err ==> final(store)@ == old(store)@,
        match uuid_of(id@) {
            None => r == Err::<Task, ApiError>(ApiError::InvalidId),
            Some(u) => if !has_id(old(store)@, u) {
                r == Err::<Task, ApiError>(ApiError::NotFound)
            } else {
                r matches Ok(t) && {
                    let k = index_of(old(store)@, u);
                    &&& exists|now: i64| t@ == old(store)@[k].updated(upd, now)
                    &&& t@.updated_at >= old(store)@[k].updated_at
                    &&& final(store)@ == old(store)@.update(k, t@)
                }
            },
        },
{
    match parse_id(id) {
        None => Err(ApiError::InvalidId),
        Some(u) => match store.update(u, upd) {
            Some(t) => Ok(t),
            None => Err(ApiError::NotFound),
        },
    }
}

/// Delete the task with identifier `id`.
pub fn delete_task(store: &mut TaskStore, id: &str) -> (r: Result<(), ApiError>)
    requires
        old(store).wf(),
    ensures
        final(store).wf(),
        match uuid_of(id@) {
            None => r == Err::<(), ApiError>(ApiError::InvalidId) && final(store)@ == old(store)@,
            Some(u) => if has_id(old(store)@, u) {
                r is Ok && final(store)@ == old(store)@.remove(index_of(old(store)@, u))
            } else {
                r == Err::<(), ApiError>(ApiError::NotFound) && final(store)@ == old(store)@
            },
        },
{
    match parse_id(id) {
        None => Err(ApiError::InvalidId),
        Some(u) => if store.remove(u) {
            Ok(())
        } else {
            Err(ApiError::NotFound)
        },
    }
}

/// Number of tasks held.
pub fn count_tasks(store: &TaskStore) -> (r: usize)
    ensures
        r == store@.len(),
{
    store.count()
}

/// The identifiers that the entries of `s` denote, skipping those that denote none.
pub open spec fn parsed_ids(s: Seq<Seq<char>>) -> Seq<u128>
    decreases s.len(),
{
    if s.len() == 0 {
        Seq::empty()
    } else {
        let prev = parsed_ids(s.drop_last());
        match uuid_of(s.last()) {
            Some(u) => prev.push(u),
            None => prev,
        }
    }
}

/// The identifiers that the entries of `ids` denote, in order; entries that
/// denote none are skipped.
pub fn parse_ids(ids: &Vec<String>) -> (r: Vec<u128>)
    ensures
        r@ == parsed_ids(strings_view(ids@)),
{
    let ghost sv = strings_view(ids@);
    let mut out: Vec<u128> = Vec::new();
    let mut i: usize = 0;
    while i < ids.len()
        invariant
            i <= ids@.len(),
            sv == strings_view(ids@),
            out@ == parsed_ids(sv.subrange(0, i as int)),
        decreases ids@.len() - i,
    {
        let ghost upto = sv.subrange(0, i as int + 1);
        assert(upto.drop_last() =~= sv.subrange(0, i as int));
        assert(upto.last() == ids@[i as int]@);
        if let Some(u) = parse_id(ids[i].as_str()) {
            out.push(u);
        }
        i += 1;
    }
    assert(sv.subrange(0, i as int) =~= sv);
    out
}

/// Delete the tasks whose identifiers are listed; entries that are not valid
/// identifiers, or name no task, are skipped. Returns how many were deleted.
pub fn bulk_delete_tasks(store: &mut TaskStore, ids: &Vec<String>) -> (r: usize)
    requires
        old(store).wf(),
    ensures
        final(store).wf(),
        final(store)@ == old(store)@.filter(unlisted(parsed_ids(strings_view(ids@)))),
        r == old(store)@.filter(listed(parsed_ids(strings_view(ids@)))).len(),
{
    let parsed = parse_ids(ids);
    store.remove_many(parsed.as_slice())
}

/// Import creation records: the structured form is validated per entry, the
/// delimited form per data row, and the multipart form as delimited text.
pub fn import_tasks(store: &mut TaskStore, input: ImportInput) -> (r: Result<ImportReport, ApiError>)
    requires
        old(store).wf(),
    ensures
        final(store).wf(),
        r matches Err(e) ==> e is Import,
        r matches Ok(rep) ==> rep.imported == rep.tasks@.len() && rep.failed == rep.errors@.len(),
        match input {
            ImportInput::Structured(items) => r matches Ok(rep) && {
                &&& final(store)@ == old(store)@ + views(rep.tasks@)
                &&& task_pairs(views(rep.tasks@)) == creates_view(items@).filter(
                    |c: (Seq<char>, Seq<char>)| pair_valid(c),
                )
                &&& error_refs(rep.errors@) == index_refs(invalid_positions(creates_view(items@)))
            },
            ImportInput::Delimited(body) => delimited_outcome(
                old(store)@,
                final(store)@,
                body@,
                as_import(r),
            ),
            ImportInput::Multipart { body, content_type } => multipart_outcome(
                old(store)@,
                final(store)@,
                body@,
                content_type@,
                as_import(r),
            ),
        },
{
    match input {
        ImportInput::Structured(items) => Ok(store.import_structured(items)),
        ImportInput::Delimited(body) => match store.import_delimited(body.as_slice()) {
            Ok(rep) => Ok(rep),
            Err(e) => Err(ApiError::Import(e)),
        },
        ImportInput::Multipart { body, content_type } => match store.import_multipart(
            body.as_slice(),
            content_type.as_slice(),
        ) {
            Ok(rep) => Ok(rep),
            Err(e) => Err(ApiError::Import(e)),
        },
    }
}

/// Import a structured sequence of creation records, validated per entry.
pub fn import_tasks_json(store: &mut TaskStore, items: Vec<TaskCreate>) -> (r: ImportReport)
    requires
        old(store).wf(),
    ensures
        final(store).wf(),
        final(store)@ == old(store)@ + views(r.tasks@),
        r.imported == r.tasks@.len(),
        r.failed == r.errors@.len(),
        task_pairs(views(r.tasks@)) == creates_view(items@).filter(
            |c: (Seq<char>, Seq<char>)| pair_valid(c),
        ),
        error_refs(r.errors@) == index_refs(invalid_positions(creates_view(items@))),
{
    store.import_structured(items)
}

/// Import delimited text all or nothing: a row that cannot be read, or lacks
/// a column, rejects the whole payload; rows with an empty title are reported
/// one by one.
pub fn import_tasks_csv(store: &mut TaskStore, body: &[u8]) -> (r: Result<ImportReport, ApiError>)
    requires
        old(store).wf(),
    ensures
        final(store).wf(),
        r matches Err(e) ==> e is Import,
        strict_outcome(old(store)@, final(store)@, body@, as_import(r)),
{
    match store.import_delimited_strict(body) {
        Ok(rep) => Ok(rep),
        Err(e) => Err(ApiError::Import(e)),
    }
}

/// Import the delimited text in the `file` part of a multipart payload.
pub fn import_tasks_file(store: &mut TaskStore, content_type: &[u8], body: &[u8]) -> (r: Result<ImportReport, ApiError>)
    requires
        old(store).wf(),
    ensures
        final(store).wf(),
        r matches Err(e) ==> e is Import,
        r matches Ok(rep) ==> rep.imported == rep.tasks@.len() && rep.failed == rep.errors@.len(),
        multipart_outcome(old(store)@, final(store)@, body@, content_type@, as_import(r)),
{
    match store.import_multipart(body, content_type) {
        Ok(rep) => Ok(rep),
        Err(e) => Err(ApiError::Import(e)),
    }
}

/// Replace the tags of the task with identifier `id`: the raw tags are
/// validated as a whole first, then normalized and stored in one step, which
/// keeps every other field and does not move the modification time back.
pub fn set_tags(store: &mut TaskStore, id: &str, payload: &TagsPayload) -> (r: Result<Task, ApiError>)
    requires
        old(store).wf(),
    ensures
        final(store).wf(),
        r is Err ==> final(store)@ == old(store)@,
        !tags_acceptable(payload.tags@) ==> (r matches Err(e) && e == ApiError::Validation(
            e->Validation_0,
        ) && exists|k: int|
            0 <= k < payload.tags@.len() && !tag_ok(payload.tags@[k]@) && (forall|i: int|
                0 <= i < k ==> tag_ok(#[trigger] payload.tags@[i]@)) && e->Validation_0@
                == tag_problem(payload.tags@[k]@)),
        tags_acceptable(payload.tags@) ==> match uuid_of(id@) {
            None => r == Err::<Task, ApiError>(ApiError::InvalidId),
            Some(u) => if !has_id(old(store)@, u) {
                r == Err::<Task, ApiError>(ApiError::NotFound)
            } else {
                r matches Ok(t) && {
                    let k = index_of(old(store)@, u);
                    let o = old(store)@[k];
                    &&& t@ == (TaskView {
                        tags: normalize_spec(strings_view(payload.tags@)),
                        updated_at: t@.updated_at,
                        ..o
                    })
                    &&& t@.updated_at >= o.updated_at
                    &&& final(store)@ == old(store)@.update(k, t@)
                }
            },
        },
{
    if let Err(m) = validate_tags(payload.tags.as_slice()) {
        return Err(ApiError::Validation(m));
    }
    let tags = normalize_tags(payload.tags.as_slice());
    proof {
        lemma_normalize_wf(strings_view(payload.tags@));
    }
    match parse_id(id) {
        None => Err(ApiError::InvalidId),
        Some(u) => match store.replace_tags(u, tags) {
            Some(t) => Ok(t),
            None => Err(ApiError::NotFound),
        },
    }
}

/// The tags of the task with identifier `id`.
pub fn get_tags(store: &TaskStore, id: &str) -> (r: Result<Vec<String>, ApiError>)
    requires
        store.wf(),
    ensures
        match uuid_of(id@) {
            None => r == Err::<Vec<String>, ApiError>(ApiError::InvalidId),
            Some(u) => match find(store@, u) {
                Some(tv) => r matches Ok(v) && strings_view(v@) == tv.tags && tags_wf(strings_view(v@)),
                None => r == Err::<Vec<String>, ApiError>(ApiError::NotFound),
            },
        },
{
    proof {
        store.lemma_wf_tasks();
    }
    match get_task(store, id) {
        Ok(t) => Ok(t.tags),
        Err(e) => Err(e),
    }
}

/// The tasks that carry the queried tag, matched case-insensitively.
pub fn get_tasks_by_tag(store: &TaskStore, q: &TagQuery) -> (r: Vec<Task>)
    ensures
        views(r@) == store@.filter(tagged(lower_of(q.tag@))),
{
    search_by_tag(store.list(), q.tag.as_str())
}

/// Aggregate statistics over all tasks.
pub fn get_stats(store: &TaskStore) -> (r: Stats)
    requires
        store.wf(),
    ensures
        r.total == store@.len(),
        r.completed == crate::stats::completed_count(store@),
        r.incomplete == r.total - r.completed,
        crate::stats::is_top_tags(store@, r.tag_distribution@),
        crate::stats::is_oldest(store@, r.oldest_created_at),
        crate::stats::is_newest(store@, r.newest_created_at),
{
    let all = store.list();
    proof {
        store.lemma_wf_tasks();
    }
    compute_stats(&all)
}

/// Set the priority of the task with identifier `id`, named case-insensitively.
pub fn set_priority(store: &mut TaskStore, id: &str, payload: &PriorityPayload) -> (r: Result<Task, ApiError>)
    requires
        old(store).wf(),
    ensures
        final(store).wf(),
        r is Err ==> final(store)@ == old(store)@,
        match uuid_of(id@) {
            None => r == Err::<Task, ApiError>(ApiError::InvalidId),
            Some(u) => match priority_named(lower_of(trim_spec(payload.priority@))) {
                None => r matches Err(e) && e == ApiError::Validation(e->Validation_0)
                    && e->Validation_0@ == invalid_priority_text(payload.priority@),
                Some(p) => if !has_id(old(store)@, u) {
                    r == Err::<Task, ApiError>(ApiError::NotFound)
                } else {
                    r matches Ok(t) && {
                        let k = index_of(old(store)@, u);
                        let o = old(store)@[k];
                        &&& t@ == (TaskView { priority: p, updated_at: t@.updated_at, ..o })
                        &&& t@.updated_at >= o.updated_at
                        &&& final(store)@ == old(store)@.update(k, t@)
                    }
                },
            },
        },
{
    match parse_id(id) {
        None => Err(ApiError::InvalidId),
        Some(u) => match Priority::parse(payload.priority.as_str()) {
            Err(m) => Err(ApiError::Validation(m)),
            Ok(p) => match store.set_priority(u, p) {
                Some(t) => Ok(t),
                None => Err(ApiError::NotFound),
            },
        },
    }
}

/// The priority of the task with identifier `id`.
pub fn get_priority(store: &TaskStore, id: &str) -> (r: Result<Priority, ApiError>)
    requires
        store.wf(),
    ensures
        match uuid_of(id@) {
            None => r == Err::<Priority, ApiError>(ApiError::InvalidId),
            Some(u) => match find(store@, u) {
                Some(tv) => r == Ok::<Priority, ApiError>(tv.priority),
                None => r == Err::<Priority, ApiError>(ApiError::NotFound),
            },
        },
{
    match get_task(store, id) {
        Ok(t) => Ok(t.priority),
        Err(e) => Err(e),
    }
}

/// The tasks with the named priority, named case-insensitively.
pub fn get_tasks_by_priority(store: &TaskStore, priority: &str) -> (r: Result<Vec<Task>, ApiError>)
    ensures
        match priority_named(lower_of(trim_spec(priority@))) {
            None => r matches Err(e) && e == ApiError::Validation(e->Validation_0)
                && e->Validation_0@ == invalid_priority_text(priority@),
            Some(p) => r matches Ok(v) && views(v@) == store@.filter(priority_is(p)),
        },
{
    match Priority::parse(priority) {
        Err(m) => Err(ApiError::Validation(m)),
        Ok(p) => Ok(search_by_priority(store.list(), p)),
    }
}

} // verus!
