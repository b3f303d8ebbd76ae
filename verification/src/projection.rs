//! Refreshing a project's projection. Given what the sources say now and what
//! the index held before, this decides which rows to write, mark stale or
//! remove, which diagnostics change, and which events to publish under which
//! sequence numbers. The caller applies the plan in one transaction.
use crate::events::{Event, EventKind, EventReason};
use crate::reply::AppError;
use crate::ids::{uuid_parse_spec, uuid_parses};
use crate::text::text_eq;
use vstd::utf8::encode_utf8;
use vstd::prelude::*;

verus! {

/// A source document as the refresh observed it.
pub struct ObservedSource {
    pub version: String,
    /// The first of `title`, `name` and `summary` in its metadata, if that
    /// field is a string.
    pub title: Option<String>,
    /// Its labels, or none when it has none.
    pub labels: Vec<String>,
}

/// One document the refresh looked at; `source` is `None` when it could not
/// be read or parsed.
pub struct ProjectionDocument {
    pub kind: String,
    pub id: String,
    pub source: Option<ObservedSource>,
}

/// A row the index held before the refresh.
pub struct IndexedRow {
    pub kind: String,
    pub id: String,
    pub version: String,
    pub validity: String,
    pub labels: Vec<String>,
}

/// A source diagnostic: a path relative to the project and a code.
pub struct ProjectionIssue {
    pub path: String,
    pub code: String,
}

/// The writes and publications that bring the projection up to date.
pub struct ProjectionPlan {
    /// Rows to mark stale because their source could not be read.
    pub mark_stale: Vec<(String, String)>,
    /// Documents whose rows are written from the new observation.
    pub upserts: Vec<(String, String)>,
    /// Rows whose source no longer exists.
    pub removals: Vec<(String, String)>,
    /// Diagnostic paths to delete.
    pub issue_removals: Vec<String>,
    /// Diagnostics to write, by path and code.
    pub issue_upserts: Vec<(String, String)>,
    /// Whether the project's pending reconciliation ends.
    pub end_reconciliation: bool,
    /// Events to publish, numbered from the previous sequence on.
    pub events: Vec<Event>,
    /// The stream sequence afterwards.
    pub sequence: i64,
    /// Whether the project's page revision moves to `sequence`.
    pub record_revision: bool,
}

pub type SourceView = (Seq<char>, Option<Seq<char>>, Seq<Seq<char>>);

pub type DocView = (Seq<char>, Seq<char>, Option<SourceView>);

/// Kind, ID, version, validity and labels of a previous row.
pub type RowView = (Seq<char>, Seq<char>, Seq<char>, Seq<char>, Seq<Seq<char>>);

pub type KeyView = (Seq<char>, Seq<char>);

/// An event as values: kind, sequence, project, target, version, reason,
/// label flag.
pub type EventView = (
    EventKind,
    int,
    Option<Seq<char>>,
    Option<KeyView>,
    Option<Seq<char>>,
    EventReason,
    Option<bool>,
);

pub open spec fn texts(v: Seq<String>) -> Seq<Seq<char>> {
    v.map_values(|s: String| s@)
}

pub open spec fn doc_view(d: ProjectionDocument) -> DocView {
    (
        d.kind@,
        d.id@,
        match d.source {
            Some(s) => Some(
                (
                    s.version@,
                    match s.title {
                        Some(t) => Some(t@),
                        None => None,
                    },
                    texts(s.labels@),
                ),
            ),
            None => None,
        },
    )
}

pub open spec fn row_view(r: IndexedRow) -> RowView {
    (r.kind@, r.id@, r.version@, r.validity@, texts(r.labels@))
}

pub open spec fn event_view(e: Event) -> EventView {
    (
        e.kind,
        e.sequence as int,
        match e.project_id {
            Some(p) => Some(p@),
            None => None,
        },
        match e.target {
            Some(t) => Some((t.0@, t.1@)),
            None => None,
        },
        match e.version {
            Some(v) => Some(v@),
            None => None,
        },
        e.reason,
        e.tags_changed,
    )
}

pub open spec fn key_view(k: (String, String)) -> KeyView {
    (k.0@, k.1@)
}

/// The first previous row with this kind and ID.
pub open spec fn find_row(prev: Seq<RowView>, kind: Seq<char>, id: Seq<char>) -> Option<RowView>
    decreases prev.len(),
{
    if prev.len() == 0 {
        None
    } else if prev[0].0 == kind && prev[0].1 == id {
        Some(prev[0])
    } else {
        find_row(prev.drop_first(), kind, id)
    }
}

/// Whether the refresh observed this document.
pub open spec fn observed(docs: Seq<DocView>, kind: Seq<char>, id: Seq<char>) -> bool {
    exists|i: int| 0 <= i < docs.len() && docs[i].0 == kind && docs[i].1 == id
}

/// A document needs no write when its row is valid at the same version.
pub open spec fn unchanged(prev: Seq<RowView>, d: DocView) -> bool {
    &&& d.2 is Some
    &&& find_row(prev, d.0, d.1) matches Some(r)
    &&& r.2 == d.2.unwrap().0
    &&& r.3 == "valid"@
}

/// The labels a card had before: those of its previous row, or none.
pub open spec fn previous_labels(prev: Seq<RowView>, kind: Seq<char>, id: Seq<char>) -> Seq<Seq<char>> {
    match find_row(prev, kind, id) {
        Some(r) => r.4,
        None => seq![],
    }
}

/// The event one document contributes, before numbering (sequence 0).
pub open spec fn document_event(project: Seq<char>, prev: Seq<RowView>, d: DocView) -> Option<EventView> {
    match d.2 {
        None => if find_row(prev, d.0, d.1) matches Some(r) && r.3 != "stale"@ {
            Some(
                (
                    EventKind::HealthChanged,
                    0,
                    Some(project),
                    None,
                    None,
                    EventReason::DocumentInvalid,
                    None,
                ),
            )
        } else {
            None
        },
        Some(src) => if unchanged(prev, d) {
            None
        } else {
            Some(
                (
                    EventKind::Changed,
                    0,
                    Some(project),
                    Some((d.0, d.1)),
                    Some(src.0),
                    EventReason::SourceChanged,
                    if d.0 == "card"@ {
                        Some(previous_labels(prev, d.0, d.1) != src.2)
                    } else {
                        None
                    },
                ),
            )
        },
    }
}

pub open spec fn opt_seq<A>(o: Option<A>) -> Seq<A> {
    match o {
        Some(a) => seq![a],
        None => seq![],
    }
}

/// Events of the documents, in the order observed.
pub open spec fn document_events(project: Seq<char>, prev: Seq<RowView>, docs: Seq<DocView>) -> Seq<EventView>
    decreases docs.len(),
{
    if docs.len() == 0 {
        seq![]
    } else {
        document_events(project, prev, docs.drop_last()) + opt_seq(document_event(project, prev, docs.last()))
    }
}

/// Documents whose rows are marked stale: those that could not be read.
pub open spec fn stale_keys(docs: Seq<DocView>) -> Seq<KeyView>
    decreases docs.len(),
{
    if docs.len() == 0 {
        seq![]
    } else {
        stale_keys(docs.drop_last()) + (if docs.last().2 is None {
            seq![(docs.last().0, docs.last().1)]
        } else {
            seq![]
        })
    }
}

/// Documents whose rows are written.
pub open spec fn upsert_keys(prev: Seq<RowView>, docs: Seq<DocView>) -> Seq<KeyView>
    decreases docs.len(),
{
    if docs.len() == 0 {
        seq![]
    } else {
        upsert_keys(prev, docs.drop_last()) + (if docs.last().2 is Some && !unchanged(prev, docs.last()) {
            seq![(docs.last().0, docs.last().1)]
        } else {
            seq![]
        })
    }
}

/// Some document to write has no title to index.
pub open spec fn missing_title(prev: Seq<RowView>, docs: Seq<DocView>) -> bool {
    exists|i: int|
        0 <= i < docs.len() && (#[trigger] docs[i]).2 is Some && !unchanged(prev, docs[i])
            && docs[i].2.unwrap().1 is None
}

/// Previous rows whose documents were not observed, in previous order.
pub open spec fn removed_keys(prev: Seq<RowView>, docs: Seq<DocView>) -> Seq<KeyView>
    decreases prev.len(),
{
    if prev.len() == 0 {
        seq![]
    } else {
        removed_keys(prev.drop_last(), docs) + (if !observed(docs, prev.last().0, prev.last().1) {
            seq![(prev.last().0, prev.last().1)]
        } else {
            seq![]
        })
    }
}

pub open spec fn removal_events(project: Seq<char>, removed: Seq<KeyView>) -> Seq<EventView> {
    removed.map_values(
        |k: KeyView|
            (
                EventKind::Changed,
                0int,
                Some(project),
                Some(k),
                None::<Seq<char>>,
                EventReason::SourceRemoved,
                None::<bool>,
            ),
    )
}

/// The code a diagnostic path ends with: later diagnostics for the same
/// path replace earlier ones.
pub open spec fn issue_code(issues: Seq<(Seq<char>, Seq<char>)>, path: Seq<char>) -> Option<Seq<char>>
    decreases issues.len(),
{
    if issues.len() == 0 {
        None
    } else {
        let last = issues.last();
        if last.0 == path {
            Some(last.1)
        } else {
            issue_code(issues.drop_last(), path)
        }
    }
}

pub open spec fn issue_views(v: Seq<ProjectionIssue>) -> Seq<(Seq<char>, Seq<char>)> {
    v.map_values(|i: ProjectionIssue| (i.path@, i.code@))
}

pub open spec fn issue_views_of_pairs(v: Seq<(String, String)>) -> Seq<(Seq<char>, Seq<char>)> {
    v.map_values(|i: (String, String)| (i.0@, i.1@))
}

/// The diagnostics change when some previous path disappears or some path's
/// final code differs from its previous one.
pub open spec fn issues_differ(
    issues: Seq<(Seq<char>, Seq<char>)>,
    previous: Seq<(Seq<char>, Seq<char>)>,
) -> bool {
    ||| exists|p: Seq<char>| issue_code(previous, p) != issue_code(issues, p)
}

pub open spec fn is_health(e: EventView) -> bool {
    e.0 == EventKind::HealthChanged
}

/// Whether some event is a health change.
pub open spec fn some_health(s: Seq<EventView>) -> bool {
    exists|i: int| 0 <= i < s.len() && is_health(#[trigger] s[i])
}

/// Adds a health change for `reason` when `due` and no health change is
/// published yet.
pub open spec fn add_health(s: Seq<EventView>, due: bool, project: Seq<char>, reason: EventReason) -> Seq<EventView> {
    if due && !some_health(s) {
        s.push((EventKind::HealthChanged, 0int, Some(project), None::<KeyView>, None::<Seq<char>>, reason, None::<bool>))
    } else {
        s
    }
}

/// Events in publication order, before numbering.
pub open spec fn unnumbered_events(
    project: Seq<char>,
    prev: Seq<RowView>,
    docs: Seq<DocView>,
    issues_changed: bool,
    ended: bool,
) -> Seq<EventView> {
    let base = document_events(project, prev, docs) + removal_events(project, removed_keys(prev, docs));
    let with_issues = add_health(base, issues_changed, project, EventReason::ProjectionIssuesChanged);
    add_health(with_issues, ended, project, EventReason::ProjectionReconciled)
}

/// Numbers events consecutively after `sequence`.
pub open spec fn numbered(events: Seq<EventView>, sequence: int) -> Seq<EventView> {
    Seq::new(
        events.len(),
        |i: int| (events[i].0, sequence + 1 + i, events[i].2, events[i].3, events[i].4, events[i].5, events[i].6),
    )
}


fn labels_equal(a: &Vec<String>, b: &Vec<String>) -> (res: bool)
    ensures
        res == (texts(a@) == texts(b@)),
{
    if a.len() != b.len() {
        proof {
            assert(texts(a@).len() != texts(b@).len());
        }
        return false;
    }
    let mut i: usize = 0;
    while i < a.len()
        invariant
            a.len() == b.len(),
            i <= a.len(),
            forall|j: int| 0 <= j < i ==> a@[j]@ == b@[j]@,
        decreases a.len() - i,
    {
        if !text_eq(a[i].as_str(), b[i].as_str()) {
            proof {
                assert(texts(a@)[i as int] != texts(b@)[i as int]);
            }
            return false;
        }
        i = i + 1;
    }
    assert(texts(a@) =~= texts(b@));
    true
}

fn find_row_index(prev: &Vec<IndexedRow>, kind: &str, id: &str) -> (res: Option<usize>)
    ensures
        ({
            let pv = prev@.map_values(|r: IndexedRow| row_view(r));
            match res {
                Some(i) => i < prev.len() && find_row(pv, kind@, id@) == Some(pv[i as int]),
                None => find_row(pv, kind@, id@) is None,
            }
        }),
{
    let ghost pv = prev@.map_values(|r: IndexedRow| row_view(r));
    let mut i: usize = 0;
    assert(pv.skip(0) =~= pv);
    while i < prev.len()
        invariant
            i <= prev.len(),
            pv == prev@.map_values(|r: IndexedRow| row_view(r)),
            find_row(pv, kind@, id@) == find_row(pv.skip(i as int), kind@, id@),
        decreases prev.len() - i,
    {
        assert(pv.skip(i as int)[0] == pv[i as int]);
        assert(pv.skip(i as int).drop_first() =~= pv.skip(i + 1));
        if text_eq(prev[i].kind.as_str(), kind) && text_eq(prev[i].id.as_str(), id) {
            return Some(i);
        }
        i = i + 1;
    }
    assert(pv.skip(i as int) =~= Seq::<RowView>::empty());
    None
}

fn observed_exec(docs: &Vec<ProjectionDocument>, kind: &str, id: &str) -> (res: bool)
    ensures
        res == observed(docs@.map_values(|d: ProjectionDocument| doc_view(d)), kind@, id@),
{
    let ghost dv = docs@.map_values(|d: ProjectionDocument| doc_view(d));
    let mut i: usize = 0;
    while i < docs.len()
        invariant
            i <= docs.len(),
            dv == docs@.map_values(|d: ProjectionDocument| doc_view(d)),
            forall|j: int| 0 <= j < i ==> !(dv[j].0 == kind@ && dv[j].1 == id@),
        decreases docs.len() - i,
    {
        if text_eq(docs[i].kind.as_str(), kind) && text_eq(docs[i].id.as_str(), id) {
            assert(dv[i as int].0 == kind@ && dv[i as int].1 == id@);
            return true;
        }
        i = i + 1;
    }
    false
}

/// The position of the diagnostic that decides a path's code: the last one
/// for that path.
fn last_issue(list: &Vec<ProjectionIssue>, path: &str) -> (res: Option<usize>)
    ensures
        ({
            let v = issue_views(list@);
            &&& match res {
                Some(i) => i < list.len() && issue_code(v, path@) == Some(v[i as int].1) && v[i as int].0 == path@
                    && forall|j: int| i < j < v.len() ==> v[j].0 != path@,
                None => issue_code(v, path@) is None && forall|j: int| 0 <= j < v.len() ==> v[j].0 != path@,
            }
        }),
{
    let ghost v = issue_views(list@);
    let mut i: usize = list.len();
    assert(v.take(i as int) =~= v);
    while i > 0
        invariant
            i <= list.len(),
            v == issue_views(list@),
            issue_code(v, path@) == issue_code(v.take(i as int), path@),
            forall|j: int| i <= j < v.len() ==> v[j].0 != path@,
        decreases i,
    {
        assert(v.take(i as int).last() == v[i - 1]);
        assert(v.take(i as int).drop_last() =~= v.take(i - 1));
        if text_eq(list[i - 1].path.as_str(), path) {
            return Some(i - 1);
        }
        i = i - 1;
    }
    assert(v.take(0) =~= Seq::<(Seq<char>, Seq<char>)>::empty());
    None
}

proof fn lemma_numbered_push(events: Seq<EventView>, e: EventView, sequence: int)
    ensures
        numbered(events.push(e), sequence) == numbered(events, sequence).push(
            (e.0, sequence + 1 + events.len(), e.2, e.3, e.4, e.5, e.6),
        ),
{
    assert(numbered(events.push(e), sequence) =~= numbered(events, sequence).push(
        (e.0, sequence + 1 + events.len(), e.2, e.3, e.4, e.5, e.6),
    ));
}

/// Publishes `e` as the next numbered event.
fn push_event(
    out: &mut Vec<Event>,
    sequence: i64,
    kind: EventKind,
    project: &str,
    target: Option<(String, String)>,
    version: Option<String>,
    reason: EventReason,
    tags_changed: Option<bool>,
    Ghost(unnumbered): Ghost<Seq<EventView>>,
)
    requires
        old(out)@.map_values(|e: Event| event_view(e)) == numbered(unnumbered, sequence as int),
        sequence + 1 + old(out)@.len() <= i64::MAX,
        old(out)@.len() <= i64::MAX,
    ensures
        final(out)@.map_values(|e: Event| event_view(e)) == numbered(
            unnumbered.push(
                (
                    kind,
                    0int,
                    Some(project@),
                    match target {
                        Some(t) => Some((t.0@, t.1@)),
                        None => None,
                    },
                    match version {
                        Some(v) => Some(v@),
                        None => None,
                    },
                    reason,
                    tags_changed,
                ),
            ),
            sequence as int,
        ),
        final(out)@.len() == old(out)@.len() + 1,
{
    let ghost before = out@;
    let ghost ev = (kind, 0int, Some(project@), match &target {
        Some(t) => Some((t.0@, t.1@)),
        None => None,
    }, match &version {
        Some(v) => Some(v@),
        None => None,
    }, reason, tags_changed);
    let n = out.len() as i64;
    let e = Event {
        kind,
        sequence: sequence + 1 + n,
        project_id: Some(project.to_owned()),
        target,
        version,
        reason,
        tags_changed,
    };
    out.push(e);
    proof {
        lemma_numbered_push(unnumbered, ev, sequence as int);
        assert(out@.map_values(|e: Event| event_view(e)) =~= before.map_values(|e: Event| event_view(e)).push(event_view(e)));
    }
}

fn has_health(out: &Vec<Event>) -> (res: bool)
    ensures
        res == exists|i: int| 0 <= i < out@.len() && (#[trigger] out@[i]).kind == EventKind::HealthChanged,
{
    let mut i: usize = 0;
    while i < out.len()
        invariant
            i <= out.len(),
            forall|j: int| 0 <= j < i ==> (#[trigger] out@[j]).kind != EventKind::HealthChanged,
        decreases out.len() - i,
    {
        if out[i].kind == EventKind::HealthChanged {
            return true;
        }
        i = i + 1;
    }
    false
}


pub open spec fn is_last(v: Seq<(Seq<char>, Seq<char>)>, j: int) -> bool {
    forall|k: int| j < k < v.len() ==> v[k].0 != v[j].0
}

proof fn lemma_issue_code_some(v: Seq<(Seq<char>, Seq<char>)>, p: Seq<char>)
    ensures
        issue_code(v, p) is Some ==> exists|j: int|
            0 <= j < v.len() && v[j].0 == p && is_last(v, j) && issue_code(v, p) == Some(v[j].1),
        (exists|j: int| 0 <= j < v.len() && v[j].0 == p) ==> issue_code(v, p) is Some,
    decreases v.len(),
{
    if v.len() > 0 {
        let w = v.drop_last();
        lemma_issue_code_some(w, p);
        if v.last().0 == p {
            assert(is_last(v, v.len() - 1));
        } else {
            if issue_code(v, p) is Some {
                let j = choose|j: int| 0 <= j < w.len() && w[j].0 == p && is_last(w, j) && issue_code(w, p) == Some(w[j].1);
                assert(v[j] == w[j]);
                assert(is_last(v, j)) by {
                    assert forall|k: int| j < k < v.len() implies v[k].0 != v[j].0 by {
                        if k < w.len() {
                            assert(v[k] == w[k]);
                        }
                    }
                }
            }
            if exists|j: int| 0 <= j < v.len() && v[j].0 == p {
                let j = choose|j: int| 0 <= j < v.len() && v[j].0 == p;
                assert(j < w.len());
                assert(w[j] == v[j]);
            }
        }
    }
}

/// Plans the refresh of `project`.
///
/// `documents` are the observations, one per kind and ID, in the order the
/// refresh made them, and
/// `previous` the rows the index held for them (all the project's rows for a
/// full refresh, the named ones when `keyed`); `pending` says whether the
/// project still awaited reconciliation; `sequence` is the stream's current
/// sequence. A document to be written whose title cannot be read fails the
/// whole refresh.
pub fn plan_projection(
    project: &str,
    documents: &Vec<ProjectionDocument>,
    previous: &Vec<IndexedRow>,
    issues: &Vec<ProjectionIssue>,
    previous_issues: &Vec<ProjectionIssue>,
    keyed: bool,
    pending: bool,
    sequence: i64,
) -> (res: Result<ProjectionPlan, AppError>)
    requires
        0 <= sequence,
        sequence + documents.len() + previous.len() + 2 <= i64::MAX,
        distinct_keys(documents@.map_values(|d: ProjectionDocument| doc_view(d))),
    ensures
        ({
            let dv = documents@.map_values(|d: ProjectionDocument| doc_view(d));
            let pv = previous@.map_values(|r: IndexedRow| row_view(r));
            let ni = issue_views(issues@);
            let pi = issue_views(previous_issues@);
            match res {
                Err(e) => {
                    &&& missing_title(pv, dv)
                    &&& e matches AppError::Invariant(c)
                    &&& c@ == "indexed document title"@
                },
                Ok(plan) => {
                    let ended = !keyed && pending;
                    let events = numbered(
                        unnumbered_events(project@, pv, dv, issues_differ(ni, pi), ended),
                        sequence as int,
                    );
                    &&& !missing_title(pv, dv)
                    &&& plan.mark_stale@.map_values(|k: (String, String)| key_view(k)) == stale_keys(dv)
                    &&& plan.upserts@.map_values(|k: (String, String)| key_view(k)) == upsert_keys(pv, dv)
                    &&& plan.removals@.map_values(|k: (String, String)| key_view(k)) == removed_keys(pv, dv)
                    &&& texts(plan.issue_removals@).no_duplicates()
                    &&& forall|p: Seq<char>| texts(plan.issue_removals@).contains(p) <==> (issue_code(pi, p) is Some && issue_code(ni, p) is None)
                    &&& issue_views_of_pairs(plan.issue_upserts@).map_values(|e: (Seq<char>, Seq<char>)| e.0).no_duplicates()
                    &&& forall|p: Seq<char>, c: Seq<char>| issue_views_of_pairs(plan.issue_upserts@).contains((p, c)) <==> (issue_code(ni, p) == Some(c) && issue_code(pi, p) != Some(c))
                    &&& plan.end_reconciliation == ended
                    &&& plan.events@.map_values(|e: Event| event_view(e)) == events
                    &&& plan.sequence == sequence + events.len()
                    &&& plan.record_revision == (events.len() > 0)
                },
            }
        }),
{
    let ghost dv = documents@.map_values(|d: ProjectionDocument| doc_view(d));
    let ghost pv = previous@.map_values(|r: IndexedRow| row_view(r));
    let ghost ni = issue_views(issues@);
    let ghost pi = issue_views(previous_issues@);
    let mut events: Vec<Event> = Vec::new();
    let mut mark_stale: Vec<(String, String)> = Vec::new();
    let mut upserts: Vec<(String, String)> = Vec::new();
    let mut i: usize = 0;
    proof {
        assert(dv.take(0) =~= Seq::<DocView>::empty());
        assert(events@.map_values(|e: Event| event_view(e)) =~= numbered(Seq::<EventView>::empty(), sequence as int));
    }
    while i < documents.len()
        invariant
            i <= documents.len(),
            dv == documents@.map_values(|d: ProjectionDocument| doc_view(d)),
            pv == previous@.map_values(|r: IndexedRow| row_view(r)),
            0 <= sequence,
            sequence + documents.len() + previous.len() + 2 <= i64::MAX,
            events@.len() <= i,
            events@.map_values(|e: Event| event_view(e)) == numbered(document_events(project@, pv, dv.take(i as int)), sequence as int),
            mark_stale@.map_values(|k: (String, String)| key_view(k)) == stale_keys(dv.take(i as int)),
            upserts@.map_values(|k: (String, String)| key_view(k)) == upsert_keys(pv, dv.take(i as int)),
            !missing_title(pv, dv.take(i as int)),
        decreases documents.len() - i,
    {
        let ghost t = dv.take(i + 1);
        assert(t.drop_last() =~= dv.take(i as int));
        assert(t.last() == dv[i as int]);
        let d = &documents[i];
        let ghost d_view = doc_view(*d);
        assert(d_view == dv[i as int]);
        let row = find_row_index(previous, d.kind.as_str(), d.id.as_str());
        let ghost ev_before = events@.map_values(|e: Event| event_view(e));
        match &d.source {
            None => {
                let key = (d.kind.clone(), d.id.clone());
                let ghost before = mark_stale@;
                mark_stale.push(key);
                proof {
                    assert(mark_stale@.map_values(|k: (String, String)| key_view(k)) =~= before.map_values(|k: (String, String)| key_view(k)).push((d.kind@, d.id@)));
                }
                let flag = match row {
                    Some(j) => !text_eq(previous[j].validity.as_str(), "stale"),
                    None => false,
                };
                if flag {
                    push_event(&mut events, sequence, EventKind::HealthChanged, project, None, None, EventReason::DocumentInvalid, None, Ghost(document_events(project@, pv, dv.take(i as int))));
                }
                proof {
                    assert(document_events(project@, pv, t) =~= document_events(project@, pv, dv.take(i as int)) + opt_seq(document_event(project@, pv, dv[i as int])));
                    assert(upsert_keys(pv, t) =~= upsert_keys(pv, dv.take(i as int)));
                    assert forall|k: int| 0 <= k < t.len() && (#[trigger] t[k]).2 is Some && !unchanged(pv, t[k]) implies t[k].2.unwrap().1 is Some by {
                        if k < i {
                            assert(t[k] == dv.take(i as int)[k]);
                        }
                    }
                    if !flag {
                        assert(opt_seq(document_event(project@, pv, dv[i as int])) =~= Seq::<EventView>::empty());
                        assert(document_events(project@, pv, t) =~= document_events(project@, pv, dv.take(i as int)));
                    }
                }
            },
            Some(src) => {
                let same = match row {
                    Some(j) => text_eq(previous[j].version.as_str(), src.version.as_str())
                        && text_eq(previous[j].validity.as_str(), "valid"),
                    None => false,
                };
                if !same {
                    if src.title.is_none() {
                        proof {
                            assert(dv[i as int].2 is Some && !unchanged(pv, dv[i as int]) && dv[i as int].2.unwrap().1 is None);
                        }
                        return Err(AppError::invariant_failed("indexed document title"));
                    }
                    let ghost before = upserts@;
                    upserts.push((d.kind.clone(), d.id.clone()));
                    proof {
                        assert(upserts@.map_values(|k: (String, String)| key_view(k)) =~= before.map_values(|k: (String, String)| key_view(k)).push((d.kind@, d.id@)));
                    }
                    let tags = if text_eq(d.kind.as_str(), "card") {
                        let changed = match row {
                            Some(j) => !labels_equal(&previous[j].labels, &src.labels),
                            None => src.labels.len() != 0,
                        };
                        Some(changed)
                    } else {
                        None
                    };
                    proof {
                        if d.kind@ == "card"@ && row is None {
                            assert(previous_labels(pv, d.kind@, d.id@) =~= Seq::<Seq<char>>::empty());
                            if src.labels.len() == 0 {
                                assert(texts(src.labels@) =~= Seq::<Seq<char>>::empty());
                            } else {
                                assert(texts(src.labels@).len() != 0);
                            }
                        }
                    }
                    push_event(&mut events, sequence, EventKind::Changed, project, Some((d.kind.clone(), d.id.clone())), Some(src.version.clone()), EventReason::SourceChanged, tags, Ghost(document_events(project@, pv, dv.take(i as int))));
                }
                proof {
                    assert(document_events(project@, pv, t) =~= document_events(project@, pv, dv.take(i as int)) + opt_seq(document_event(project@, pv, dv[i as int])));
                    assert(stale_keys(t) =~= stale_keys(dv.take(i as int)));
                    if same {
                        assert(unchanged(pv, dv[i as int]));
                        assert(opt_seq(document_event(project@, pv, dv[i as int])) =~= Seq::<EventView>::empty());
                        assert(document_events(project@, pv, t) =~= document_events(project@, pv, dv.take(i as int)));
                        assert(upsert_keys(pv, t) =~= upsert_keys(pv, dv.take(i as int)));
                    } else {
                        assert(!unchanged(pv, dv[i as int]));
                    }
                    assert forall|k: int| 0 <= k < t.len() && (#[trigger] t[k]).2 is Some && !unchanged(pv, t[k]) implies t[k].2.unwrap().1 is Some by {
                        if k < i {
                            assert(t[k] == dv.take(i as int)[k]);
                        }
                    }
                }
            },
        }
        i = i + 1;
    }
    proof {
        assert(dv.take(i as int) =~= dv);
    }
    let ghost doc_events = document_events(project@, pv, dv);
    let mut removals: Vec<(String, String)> = Vec::new();
    let mut k: usize = 0;
    proof {
        assert(pv.take(0) =~= Seq::<RowView>::empty());
        assert(removal_events(project@, removed_keys(pv.take(0), dv)) =~= Seq::<EventView>::empty());
        assert(doc_events + Seq::<EventView>::empty() =~= doc_events);
    }
    while k < previous.len()
        invariant
            k <= previous.len(),
            i == documents.len(),
            dv == documents@.map_values(|d: ProjectionDocument| doc_view(d)),
            pv == previous@.map_values(|r: IndexedRow| row_view(r)),
            0 <= sequence,
            sequence + documents.len() + previous.len() + 2 <= i64::MAX,
            events@.len() <= i + k,
            doc_events == document_events(project@, pv, dv),
            events@.map_values(|e: Event| event_view(e)) == numbered(doc_events + removal_events(project@, removed_keys(pv.take(k as int), dv)), sequence as int),
            removals@.map_values(|k: (String, String)| key_view(k)) == removed_keys(pv.take(k as int), dv),
        decreases previous.len() - k,
    {
        let ghost t = pv.take(k + 1);
        assert(t.drop_last() =~= pv.take(k as int));
        assert(t.last() == pv[k as int]);
        let r = &previous[k];
        assert(row_view(*r) == pv[k as int]);
        if !observed_exec(documents, r.kind.as_str(), r.id.as_str()) {
            let ghost before = removals@;
            removals.push((r.kind.clone(), r.id.clone()));
            proof {
                assert(removals@.map_values(|k: (String, String)| key_view(k)) =~= before.map_values(|k: (String, String)| key_view(k)).push((r.kind@, r.id@)));
                assert(removed_keys(t, dv) =~= removed_keys(pv.take(k as int), dv).push((r.kind@, r.id@)));
                assert(doc_events + removal_events(project@, removed_keys(t, dv)) =~= (doc_events + removal_events(project@, removed_keys(pv.take(k as int), dv))).push((EventKind::Changed, 0int, Some(project@), Some((r.kind@, r.id@)), None::<Seq<char>>, EventReason::SourceRemoved, None::<bool>)));
            }
            push_event(&mut events, sequence, EventKind::Changed, project, Some((r.kind.clone(), r.id.clone())), None, EventReason::SourceRemoved, None, Ghost(doc_events + removal_events(project@, removed_keys(pv.take(k as int), dv))));
        } else {
            proof {
                assert(removed_keys(t, dv) =~= removed_keys(pv.take(k as int), dv));
            }
        }
        k = k + 1;
    }
    proof {
        assert(pv.take(k as int) =~= pv);
    }
    let ghost base = doc_events + removal_events(project@, removed_keys(pv, dv));
    // Diagnostics that disappear.
    let mut issue_removals: Vec<String> = Vec::new();
    let mut a: usize = 0;
    while a < previous_issues.len()
        invariant
            a <= previous_issues.len(),
            pi == issue_views(previous_issues@),
            ni == issue_views(issues@),
            texts(issue_removals@).no_duplicates(),
            forall|p: Seq<char>| texts(issue_removals@).contains(p) <==> (exists|j: int| 0 <= j < a && pi[j].0 == p && is_last(pi, j) && issue_code(ni, p) is None),
        decreases previous_issues.len() - a,
    {
        let path = previous_issues[a].path.as_str();
        let last = last_issue(previous_issues, path);
        let gone = last_issue(issues, path);
        let ghost before = issue_removals@;
        if last == Some(a) && gone.is_none() {
            issue_removals.push(previous_issues[a].path.clone());
            proof {
                assert(texts(issue_removals@) =~= texts(before).push(pi[a as int].0));
                assert(!texts(before).contains(pi[a as int].0)) by {
                    if texts(before).contains(pi[a as int].0) {
                        let j = choose|j: int| 0 <= j < a && pi[j].0 == pi[a as int].0 && is_last(pi, j) && issue_code(ni, pi[a as int].0) is None;
                        assert(pi[a as int].0 != pi[j].0);
                    }
                }
                assert forall|p: Seq<char>| texts(issue_removals@).contains(p) <==> (exists|j: int| 0 <= j < a + 1 && pi[j].0 == p && is_last(pi, j) && issue_code(ni, p) is None) by {
                    if texts(issue_removals@).contains(p) {
                        let x = choose|x: int| 0 <= x < texts(issue_removals@).len() && texts(issue_removals@)[x] == p;
                        if x < texts(before).len() {
                            assert(texts(before)[x] == p);
                            assert(texts(before).contains(p));
                        } else {
                            assert(pi[a as int].0 == p);
                            assert(is_last(pi, a as int));
                        }
                    }
                    if exists|j: int| 0 <= j < a + 1 && pi[j].0 == p && is_last(pi, j) && issue_code(ni, p) is None {
                        let j = choose|j: int| 0 <= j < a + 1 && pi[j].0 == p && is_last(pi, j) && issue_code(ni, p) is None;
                        if j < a {
                            assert(texts(before).contains(p));
                            let x = choose|x: int| 0 <= x < texts(before).len() && texts(before)[x] == p;
                            assert(texts(issue_removals@)[x] == p);
                        } else {
                            assert(texts(issue_removals@)[texts(before).len() as int] == p);
                        }
                    }
                }
            }
        } else {
            proof {
                assert(texts(issue_removals@) == texts(before));
                assert forall|p: Seq<char>| texts(issue_removals@).contains(p) <==> (exists|j: int| 0 <= j < a + 1 && pi[j].0 == p && is_last(pi, j) && issue_code(ni, p) is None) by {
                    if exists|j: int| 0 <= j < a + 1 && pi[j].0 == p && is_last(pi, j) && issue_code(ni, p) is None {
                        let j = choose|j: int| 0 <= j < a + 1 && pi[j].0 == p && is_last(pi, j) && issue_code(ni, p) is None;
                        if j == a {
                            assert(last == Some(a) || last != Some(a));
                            if last != Some(a) {
                                let m = last.unwrap();
                                assert(pi[m as int].0 == p);
                            }
                        } else {
                            assert(exists|j: int| 0 <= j < a && pi[j].0 == p && is_last(pi, j) && issue_code(ni, p) is None);
                        }
                    }
                }
            }
        }
        a = a + 1;
    }
    proof {
        assert forall|p: Seq<char>| texts(issue_removals@).contains(p) <==> (issue_code(pi, p) is Some && issue_code(ni, p) is None) by {
            lemma_issue_code_some(pi, p);
        }
    }
    // Diagnostics that appear or change code.
    let mut issue_upserts: Vec<(String, String)> = Vec::new();
    let mut b: usize = 0;
    while b < issues.len()
        invariant
            b <= issues.len(),
            pi == issue_views(previous_issues@),
            ni == issue_views(issues@),
            issue_views_of_pairs(issue_upserts@).map_values(|e: (Seq<char>, Seq<char>)| e.0).no_duplicates(),
            forall|p: Seq<char>, c: Seq<char>| issue_views_of_pairs(issue_upserts@).contains((p, c)) <==> (exists|j: int| 0 <= j < b && ni[j] == (p, c) && is_last(ni, j) && issue_code(pi, p) != Some(c)),
        decreases issues.len() - b,
    {
        let path = issues[b].path.as_str();
        let last = last_issue(issues, path);
        let prior = last_issue(previous_issues, path);
        let differs = match prior {
            Some(m) => !text_eq(previous_issues[m].code.as_str(), issues[b].code.as_str()),
            None => true,
        };
        let ghost before = issue_upserts@;
        let ghost here = ni[b as int];
        if last == Some(b) && differs {
            issue_upserts.push((issues[b].path.clone(), issues[b].code.clone()));
            proof {
                assert(issue_views_of_pairs(issue_upserts@) =~= issue_views_of_pairs(before).push(here));
                let paths0 = issue_views_of_pairs(before).map_values(|e: (Seq<char>, Seq<char>)| e.0);
                assert(issue_views_of_pairs(issue_upserts@).map_values(|e: (Seq<char>, Seq<char>)| e.0) =~= paths0.push(here.0));
                assert(!paths0.contains(here.0)) by {
                    if paths0.contains(here.0) {
                        let x = choose|x: int| 0 <= x < paths0.len() && paths0[x] == here.0;
                        let e = issue_views_of_pairs(before)[x];
                        assert(issue_views_of_pairs(before).contains(e));
                        let j = choose|j: int| 0 <= j < b && ni[j] == (e.0, e.1) && is_last(ni, j) && issue_code(pi, e.0) != Some(e.1);
                        assert(ni[j].0 == ni[b as int].0);
                    }
                }
                assert forall|p: Seq<char>, c: Seq<char>| issue_views_of_pairs(issue_upserts@).contains((p, c)) <==> (exists|j: int| 0 <= j < b + 1 && ni[j] == (p, c) && is_last(ni, j) && issue_code(pi, p) != Some(c)) by {
                    if issue_views_of_pairs(issue_upserts@).contains((p, c)) {
                        let x = choose|x: int| 0 <= x < issue_views_of_pairs(issue_upserts@).len() && issue_views_of_pairs(issue_upserts@)[x] == (p, c);
                        if x < before.len() {
                            assert(issue_views_of_pairs(before)[x] == (p, c));
                            assert(issue_views_of_pairs(before).contains((p, c)));
                        } else {
                            assert(ni[b as int] == (p, c));
                        }
                    }
                    if exists|j: int| 0 <= j < b + 1 && ni[j] == (p, c) && is_last(ni, j) && issue_code(pi, p) != Some(c) {
                        let j = choose|j: int| 0 <= j < b + 1 && ni[j] == (p, c) && is_last(ni, j) && issue_code(pi, p) != Some(c);
                        if j < b {
                            assert(issue_views_of_pairs(before).contains((p, c)));
                            let x = choose|x: int| 0 <= x < issue_views_of_pairs(before).len() && issue_views_of_pairs(before)[x] == (p, c);
                            assert(issue_views_of_pairs(issue_upserts@)[x] == (p, c));
                        } else {
                            assert(issue_views_of_pairs(issue_upserts@)[before.len() as int] == (p, c));
                        }
                    }
                }
            }
        } else {
            proof {
                assert(issue_views_of_pairs(issue_upserts@) == issue_views_of_pairs(before));
                assert forall|p: Seq<char>, c: Seq<char>| issue_views_of_pairs(issue_upserts@).contains((p, c)) <==> (exists|j: int| 0 <= j < b + 1 && ni[j] == (p, c) && is_last(ni, j) && issue_code(pi, p) != Some(c)) by {
                    if exists|j: int| 0 <= j < b + 1 && ni[j] == (p, c) && is_last(ni, j) && issue_code(pi, p) != Some(c) {
                        let j = choose|j: int| 0 <= j < b + 1 && ni[j] == (p, c) && is_last(ni, j) && issue_code(pi, p) != Some(c);
                        if j == b {
                            if last != Some(b) {
                                let m = last.unwrap();
                                assert(ni[m as int].0 == p);
                            }
                        } else {
                            assert(exists|j: int| 0 <= j < b && ni[j] == (p, c) && is_last(ni, j) && issue_code(pi, p) != Some(c));
                        }
                    }
                }
            }
        }
        b = b + 1;
    }
    proof {
        assert forall|p: Seq<char>, c: Seq<char>| issue_views_of_pairs(issue_upserts@).contains((p, c)) <==> (issue_code(ni, p) == Some(c) && issue_code(pi, p) != Some(c)) by {
            lemma_issue_code_some(ni, p);
            if issue_code(ni, p) == Some(c) {
                let j = choose|j: int| 0 <= j < ni.len() && ni[j].0 == p && is_last(ni, j) && issue_code(ni, p) == Some(ni[j].1);
                assert(ni[j] == (p, c));
            }
            if exists|j: int| 0 <= j < b && ni[j] == (p, c) && is_last(ni, j) && issue_code(pi, p) != Some(c) {
                let j = choose|j: int| 0 <= j < b && ni[j] == (p, c) && is_last(ni, j) && issue_code(pi, p) != Some(c);
                let w = choose|w: int| 0 <= w < ni.len() && ni[w].0 == p && is_last(ni, w) && issue_code(ni, p) == Some(ni[w].1);
                if w != j {
                    if w < j {
                        assert(ni[j].0 != ni[w].0);
                    } else {
                        assert(ni[w].0 != ni[j].0);
                    }
                }
            }
        }
    }
    let issues_changed = issue_removals.len() > 0 || issue_upserts.len() > 0;
    proof {
        if issues_changed {
            if issue_removals.len() > 0 {
                let p = texts(issue_removals@)[0];
                assert(texts(issue_removals@).contains(p));
                assert(issue_code(pi, p) != issue_code(ni, p));
            } else {
                let e = issue_views_of_pairs(issue_upserts@)[0];
                assert(issue_views_of_pairs(issue_upserts@).contains(e));
                assert(issue_code(pi, e.0) != issue_code(ni, e.0));
            }
        } else {
            assert forall|p: Seq<char>| issue_code(pi, p) == issue_code(ni, p) by {
                if issue_code(pi, p) != issue_code(ni, p) {
                    match issue_code(ni, p) {
                        Some(c) => {
                            assert(issue_views_of_pairs(issue_upserts@).contains((p, c)));
                        },
                        None => {
                            assert(texts(issue_removals@).contains(p));
                        },
                    }
                }
            }
        }
        assert(issues_changed == issues_differ(ni, pi));
    }
    let ghost with_issues = add_health(base, issues_changed, project@, EventReason::ProjectionIssuesChanged);
    proof {
        assert(events@.map_values(|e: Event| event_view(e)).len() == base.len());
        assert forall|x: int| 0 <= x < events@.len() implies ((#[trigger] events@[x]).kind == EventKind::HealthChanged) == is_health(base[x]) by {
            assert(events@.map_values(|e: Event| event_view(e))[x] == event_view(events@[x]));
            assert(event_view(events@[x]) == numbered(base, sequence as int)[x]);
        }
    }
    if issues_changed && !has_health(&events) {
        proof {
            assert(!(exists|x: int| 0 <= x < base.len() && is_health(#[trigger] base[x]))) by {
                if exists|x: int| 0 <= x < base.len() && is_health(#[trigger] base[x]) {
                    let x = choose|x: int| 0 <= x < base.len() && is_health(#[trigger] base[x]);
                    assert(events@[x].kind == EventKind::HealthChanged);
                }
            }
        }
        push_event(&mut events, sequence, EventKind::HealthChanged, project, None, None, EventReason::ProjectionIssuesChanged, None, Ghost(base));
    } else {
        proof {
            if issues_changed {
                let x = choose|x: int| 0 <= x < events@.len() && (#[trigger] events@[x]).kind == EventKind::HealthChanged;
                assert(is_health(base[x]));
            }
        }
    }
    assert(events@.map_values(|e: Event| event_view(e)) == numbered(with_issues, sequence as int));
    let ended = !keyed && pending;
    proof {
        assert(events@.map_values(|e: Event| event_view(e)).len() == with_issues.len());
        assert forall|x: int| 0 <= x < events@.len() implies ((#[trigger] events@[x]).kind == EventKind::HealthChanged) == is_health(with_issues[x]) by {
            assert(events@.map_values(|e: Event| event_view(e))[x] == event_view(events@[x]));
            assert(event_view(events@[x]) == numbered(with_issues, sequence as int)[x]);
        }
    }
    if ended && !has_health(&events) {
        proof {
            assert(!(exists|x: int| 0 <= x < with_issues.len() && is_health(#[trigger] with_issues[x]))) by {
                if exists|x: int| 0 <= x < with_issues.len() && is_health(#[trigger] with_issues[x]) {
                    let x = choose|x: int| 0 <= x < with_issues.len() && is_health(#[trigger] with_issues[x]);
                    assert(events@[x].kind == EventKind::HealthChanged);
                }
            }
        }
        push_event(&mut events, sequence, EventKind::HealthChanged, project, None, None, EventReason::ProjectionReconciled, None, Ghost(with_issues));
    } else {
        proof {
            if ended {
                let x = choose|x: int| 0 <= x < events@.len() && (#[trigger] events@[x]).kind == EventKind::HealthChanged;
                assert(is_health(with_issues[x]));
            }
        }
    }
    let count = events.len() as i64;
    proof {
        let final_events = numbered(unnumbered_events(project@, pv, dv, issues_differ(ni, pi), ended), sequence as int);
        assert(base == document_events(project@, pv, dv) + removal_events(project@, removed_keys(pv, dv)));
        assert(unnumbered_events(project@, pv, dv, issues_differ(ni, pi), ended) == add_health(with_issues, ended, project@, EventReason::ProjectionReconciled));
        assert(events@.map_values(|e: Event| event_view(e)) == final_events);
        assert(count == final_events.len());
    }
    Ok(ProjectionPlan {
        mark_stale,
        upserts,
        removals,
        issue_removals,
        issue_upserts,
        end_reconciliation: ended,
        events,
        sequence: sequence + count,
        record_revision: count > 0,
    })
}

/// Nothing in this observation differs from what the index holds: every
/// readable document is indexed as valid at its version, every unreadable
/// one is already stale or unindexed, and every indexed row was observed.
pub open spec fn settled(prev: Seq<RowView>, docs: Seq<DocView>) -> bool {
    &&& forall|i: int| 0 <= i < docs.len() && (#[trigger] docs[i]).2 is Some ==> unchanged(prev, docs[i])
    &&& forall|i: int| 0 <= i < docs.len() && (#[trigger] docs[i]).2 is None ==> !(find_row(prev, docs[i].0, docs[i].1) matches Some(r) && r.3 != "stale"@)
    &&& forall|j: int| 0 <= j < prev.len() ==> observed(docs, (#[trigger] prev[j]).0, prev[j].1)
}

proof fn lemma_settled_documents(project: Seq<char>, prev: Seq<RowView>, docs: Seq<DocView>)
    requires
        forall|i: int| 0 <= i < docs.len() && (#[trigger] docs[i]).2 is Some ==> unchanged(prev, docs[i]),
        forall|i: int| 0 <= i < docs.len() && (#[trigger] docs[i]).2 is None ==> !(find_row(prev, docs[i].0, docs[i].1) matches Some(r) && r.3 != "stale"@),
    ensures
        document_events(project, prev, docs).len() == 0,
        upsert_keys(prev, docs).len() == 0,
    decreases docs.len(),
{
    if docs.len() > 0 {
        let w = docs.drop_last();
        assert forall|i: int| 0 <= i < w.len() && (#[trigger] w[i]).2 is Some implies unchanged(prev, w[i]) by {
            assert(w[i] == docs[i]);
        }
        assert forall|i: int| 0 <= i < w.len() && (#[trigger] w[i]).2 is None implies !(find_row(prev, w[i].0, w[i].1) matches Some(r) && r.3 != "stale"@) by {
            assert(w[i] == docs[i]);
        }
        lemma_settled_documents(project, prev, w);
        let d = docs[docs.len() - 1];
        assert(docs.last() == d);
        assert(document_event(project, prev, d) is None);
    }
}

proof fn lemma_settled_removals(prev: Seq<RowView>, docs: Seq<DocView>)
    requires
        forall|j: int| 0 <= j < prev.len() ==> observed(docs, (#[trigger] prev[j]).0, prev[j].1),
    ensures
        removed_keys(prev, docs).len() == 0,
    decreases prev.len(),
{
    if prev.len() > 0 {
        let w = prev.drop_last();
        assert forall|j: int| 0 <= j < w.len() implies observed(docs, (#[trigger] w[j]).0, w[j].1) by {
            assert(w[j] == prev[j]);
        }
        lemma_settled_removals(w, docs);
        assert(observed(docs, prev[prev.len() - 1].0, prev[prev.len() - 1].1));
    }
}

/// Refreshing settled sources is a no-op: when nothing differs from what
/// the index holds, the diagnostics are unchanged and no reconciliation
/// ends, the refresh writes no rows, removes none and publishes no events.
pub proof fn lemma_settled_refresh_is_quiet(project: Seq<char>, prev: Seq<RowView>, docs: Seq<DocView>)
    requires
        settled(prev, docs),
    ensures
        upsert_keys(prev, docs).len() == 0,
        removed_keys(prev, docs).len() == 0,
        unnumbered_events(project, prev, docs, false, false).len() == 0,
{
    lemma_settled_documents(project, prev, docs);
    lemma_settled_removals(prev, docs);
    let base = document_events(project, prev, docs) + removal_events(project, removed_keys(prev, docs));
    assert(base.len() == 0);
}

/// The row one observed document leaves in the index once the refresh is
/// applied: a readable document keeps its row when unchanged and otherwise
/// gets a valid row at the observed version with the observed labels (an
/// upsert); an unreadable one's row, if it has one, is marked stale.
pub open spec fn applied_row(prev: Seq<RowView>, d: DocView) -> Option<RowView> {
    match d.2 {
        Some(src) => if unchanged(prev, d) {
            find_row(prev, d.0, d.1)
        } else {
            Some((d.0, d.1, src.0, "valid"@, src.2))
        },
        None => match find_row(prev, d.0, d.1) {
            Some(r) => Some((r.0, r.1, r.2, "stale"@, r.4)),
            None => None,
        },
    }
}

/// The index's rows once a refresh of `docs` is applied, in the order the
/// documents were observed. Rows of documents that were not observed are
/// gone (the removals).
pub open spec fn applied(prev: Seq<RowView>, docs: Seq<DocView>) -> Seq<RowView>
    decreases docs.len(),
{
    if docs.len() == 0 {
        seq![]
    } else {
        applied(prev, docs.drop_last()) + opt_seq(applied_row(prev, docs.last()))
    }
}

/// No two observed documents share a kind and ID: the documents of a
/// refresh are keyed by kind and ID, one entry per key, as no two files of
/// a project hold the same document.
pub open spec fn distinct_keys(docs: Seq<DocView>) -> bool {
    forall|i: int, j: int|
        #![trigger docs[i], docs[j]]
        0 <= i < j < docs.len() ==> !(docs[i].0 == docs[j].0 && docs[i].1 == docs[j].1)
}

proof fn lemma_find_row_key(prev: Seq<RowView>, kind: Seq<char>, id: Seq<char>)
    ensures
        find_row(prev, kind, id) matches Some(r) ==> r.0 == kind && r.1 == id,
    decreases prev.len(),
{
    if prev.len() > 0 {
        lemma_find_row_key(prev.drop_first(), kind, id);
    }
}

proof fn lemma_find_row_concat(a: Seq<RowView>, b: Seq<RowView>, kind: Seq<char>, id: Seq<char>)
    ensures
        find_row(a + b, kind, id) == (if find_row(a, kind, id) is Some {
            find_row(a, kind, id)
        } else {
            find_row(b, kind, id)
        }),
    decreases a.len(),
{
    if a.len() == 0 {
        assert(a + b =~= b);
    } else {
        assert((a + b).drop_first() =~= a.drop_first() + b);
        assert((a + b)[0] == a[0]);
        lemma_find_row_concat(a.drop_first(), b, kind, id);
    }
}

proof fn lemma_find_row_absent(s: Seq<RowView>, kind: Seq<char>, id: Seq<char>)
    requires
        forall|j: int| 0 <= j < s.len() ==> !((#[trigger] s[j]).0 == kind && s[j].1 == id),
    ensures
        find_row(s, kind, id) is None,
    decreases s.len(),
{
    if s.len() > 0 {
        let t = s.drop_first();
        assert forall|j: int| 0 <= j < t.len() implies !((#[trigger] t[j]).0 == kind && t[j].1 == id) by {
            assert(t[j] == s[j + 1]);
        }
        assert(!(s[0].0 == kind && s[0].1 == id));
        lemma_find_row_absent(t, kind, id);
    }
}

proof fn lemma_applied_row_key(prev: Seq<RowView>, d: DocView)
    ensures
        applied_row(prev, d) matches Some(r) ==> r.0 == d.0 && r.1 == d.1,
{
    lemma_find_row_key(prev, d.0, d.1);
}

proof fn lemma_applied_keys(prev: Seq<RowView>, docs: Seq<DocView>)
    ensures
        forall|j: int| 0 <= j < applied(prev, docs).len() ==> observed(docs, (#[trigger] applied(prev, docs)[j]).0, applied(prev, docs)[j].1),
    decreases docs.len(),
{
    if docs.len() > 0 {
        let w = docs.drop_last();
        let d = docs.last();
        let n = docs.len() - 1;
        lemma_applied_keys(prev, w);
        lemma_applied_row_key(prev, d);
        let a = applied(prev, docs);
        let aw = applied(prev, w);
        assert(a == aw + opt_seq(applied_row(prev, d)));
        assert forall|j: int| 0 <= j < a.len() implies observed(docs, (#[trigger] a[j]).0, a[j].1) by {
            if j < aw.len() {
                assert(a[j] == aw[j]);
                assert(observed(w, aw[j].0, aw[j].1));
                let k = choose|k: int| 0 <= k < w.len() && w[k].0 == aw[j].0 && w[k].1 == aw[j].1;
                assert(docs[k] == w[k]);
            } else {
                assert(a[j] == applied_row(prev, d)->0);
                assert(docs[n] == d);
            }
        }
    }
}

proof fn lemma_applied_find(prev: Seq<RowView>, docs: Seq<DocView>, i: int)
    requires
        distinct_keys(docs),
        0 <= i < docs.len(),
    ensures
        find_row(applied(prev, docs), docs[i].0, docs[i].1) == applied_row(prev, docs[i]),
    decreases docs.len(),
{
    let w = docs.drop_last();
    let d = docs.last();
    let n = docs.len() - 1;
    let aw = applied(prev, w);
    let tail = opt_seq(applied_row(prev, d));
    assert(applied(prev, docs) == aw + tail);
    assert(docs[n] == d);
    lemma_find_row_concat(aw, tail, docs[i].0, docs[i].1);
    lemma_applied_row_key(prev, d);
    if i < n {
        assert forall|a: int, b: int| #![trigger w[a], w[b]] 0 <= a < b < w.len() implies !(w[a].0 == w[b].0 && w[a].1 == w[b].1) by {
            assert(w[a] == docs[a] && w[b] == docs[b]);
        }
        assert(w[i] == docs[i]);
        lemma_applied_find(prev, w, i);
        assert(!(docs[i].0 == docs[n].0 && docs[i].1 == docs[n].1));
        assert forall|j: int| 0 <= j < tail.len() implies !((#[trigger] tail[j]).0 == docs[i].0 && tail[j].1 == docs[i].1) by {
            assert(tail[j] == applied_row(prev, d)->0);
        }
        lemma_find_row_absent(tail, docs[i].0, docs[i].1);
    } else {
        lemma_applied_keys(prev, w);
        assert forall|j: int| 0 <= j < aw.len() implies !((#[trigger] aw[j]).0 == d.0 && aw[j].1 == d.1) by {
            assert(observed(w, aw[j].0, aw[j].1));
            let k = choose|k: int| 0 <= k < w.len() && w[k].0 == aw[j].0 && w[k].1 == aw[j].1;
            assert(w[k] == docs[k]);
        }
        lemma_find_row_absent(aw, d.0, d.1);
        if applied_row(prev, d) is Some {
            assert(tail[0] == applied_row(prev, d)->0);
        }
    }
}

/// The row the index holds for a key once the plan is applied to the
/// previous rows: a removal deletes it; an upsert writes the observed
/// document, valid, at its version and with its labels; marking stale sets
/// the validity of a row that exists; any other key keeps its row.
pub open spec fn plan_row(prev: Seq<RowView>, docs: Seq<DocView>, kind: Seq<char>, id: Seq<char>) -> Option<RowView> {
    if removed_keys(prev, docs).contains((kind, id)) {
        None
    } else if upsert_keys(prev, docs).contains((kind, id)) {
        let m = choose|m: int| 0 <= m < docs.len() && docs[m].0 == kind && docs[m].1 == id && docs[m].2 is Some;
        Some((kind, id, docs[m].2.unwrap().0, "valid"@, docs[m].2.unwrap().2))
    } else if stale_keys(docs).contains((kind, id)) {
        match find_row(prev, kind, id) {
            Some(r) => Some((r.0, r.1, r.2, "stale"@, r.4)),
            None => None,
        }
    } else {
        find_row(prev, kind, id)
    }
}

proof fn lemma_concat_contains<A>(a: Seq<A>, b: Seq<A>, x: A)
    ensures
        (a + b).contains(x) <==> a.contains(x) || b.contains(x),
{
    if (a + b).contains(x) {
        let i = choose|i: int| 0 <= i < (a + b).len() && (a + b)[i] == x;
        if i < a.len() {
            assert(a[i] == x);
        } else {
            assert(b[i - a.len()] == x);
        }
    }
    if a.contains(x) {
        let i = choose|i: int| 0 <= i < a.len() && a[i] == x;
        assert((a + b)[i] == x);
    }
    if b.contains(x) {
        let i = choose|i: int| 0 <= i < b.len() && b[i] == x;
        assert((a + b)[i + a.len()] == x);
    }
}

proof fn lemma_find_row_some(prev: Seq<RowView>, kind: Seq<char>, id: Seq<char>)
    ensures
        find_row(prev, kind, id) is Some ==> exists|j: int| 0 <= j < prev.len() && (#[trigger] prev[j]).0 == kind && prev[j].1 == id,
    decreases prev.len(),
{
    if prev.len() > 0 && !(prev[0].0 == kind && prev[0].1 == id) {
        let t = prev.drop_first();
        lemma_find_row_some(t, kind, id);
        if find_row(prev, kind, id) is Some {
            let j = choose|j: int| 0 <= j < t.len() && (#[trigger] t[j]).0 == kind && t[j].1 == id;
            assert(prev[j + 1] == t[j]);
        }
    }
}

proof fn lemma_stale_keys_contain(docs: Seq<DocView>, key: KeyView)
    ensures
        stale_keys(docs).contains(key) <==> exists|m: int| 0 <= m < docs.len() && (#[trigger] docs[m]).0 == key.0 && docs[m].1 == key.1 && docs[m].2 is None,
    decreases docs.len(),
{
    if docs.len() > 0 {
        let w = docs.drop_last();
        let d = docs.last();
        let n = docs.len() - 1;
        let tail = if d.2 is None { seq![(d.0, d.1)] } else { Seq::<KeyView>::empty() };
        lemma_stale_keys_contain(w, key);
        lemma_concat_contains(stale_keys(w), tail, key);
        assert(stale_keys(docs) == stale_keys(w) + tail);
        assert(docs[n] == d);
        if tail.contains(key) {
            assert(tail[0] == key);
        }
        if exists|m: int| 0 <= m < docs.len() && (#[trigger] docs[m]).0 == key.0 && docs[m].1 == key.1 && docs[m].2 is None {
            let m = choose|m: int| 0 <= m < docs.len() && (#[trigger] docs[m]).0 == key.0 && docs[m].1 == key.1 && docs[m].2 is None;
            if m < n {
                assert(w[m] == docs[m]);
            } else {
                assert(tail[0] == key);
            }
        }
        if stale_keys(w).contains(key) {
            let m = choose|m: int| 0 <= m < w.len() && (#[trigger] w[m]).0 == key.0 && w[m].1 == key.1 && w[m].2 is None;
            assert(w[m] == docs[m]);
        }
    }
}

proof fn lemma_upsert_keys_contain(prev: Seq<RowView>, docs: Seq<DocView>, key: KeyView)
    ensures
        upsert_keys(prev, docs).contains(key) <==> exists|m: int|
            0 <= m < docs.len() && (#[trigger] docs[m]).0 == key.0 && docs[m].1 == key.1 && docs[m].2 is Some && !unchanged(prev, docs[m]),
    decreases docs.len(),
{
    if docs.len() > 0 {
        let w = docs.drop_last();
        let d = docs.last();
        let n = docs.len() - 1;
        let tail = if d.2 is Some && !unchanged(prev, d) { seq![(d.0, d.1)] } else { Seq::<KeyView>::empty() };
        lemma_upsert_keys_contain(prev, w, key);
        lemma_concat_contains(upsert_keys(prev, w), tail, key);
        assert(upsert_keys(prev, docs) == upsert_keys(prev, w) + tail);
        assert(docs[n] == d);
        if tail.contains(key) {
            assert(tail[0] == key);
        }
        if exists|m: int| 0 <= m < docs.len() && (#[trigger] docs[m]).0 == key.0 && docs[m].1 == key.1 && docs[m].2 is Some && !unchanged(prev, docs[m]) {
            let m = choose|m: int| 0 <= m < docs.len() && (#[trigger] docs[m]).0 == key.0 && docs[m].1 == key.1 && docs[m].2 is Some && !unchanged(prev, docs[m]);
            if m < n {
                assert(w[m] == docs[m]);
            } else {
                assert(tail[0] == key);
            }
        }
        if upsert_keys(prev, w).contains(key) {
            let m = choose|m: int| 0 <= m < w.len() && (#[trigger] w[m]).0 == key.0 && w[m].1 == key.1 && w[m].2 is Some && !unchanged(prev, w[m]);
            assert(w[m] == docs[m]);
        }
    }
}

proof fn lemma_removed_keys_contain(prev: Seq<RowView>, docs: Seq<DocView>, key: KeyView)
    ensures
        removed_keys(prev, docs).contains(key) <==> (!observed(docs, key.0, key.1)
            && exists|j: int| 0 <= j < prev.len() && (#[trigger] prev[j]).0 == key.0 && prev[j].1 == key.1),
    decreases prev.len(),
{
    if prev.len() > 0 {
        let w = prev.drop_last();
        let r = prev.last();
        let n = prev.len() - 1;
        let tail = if !observed(docs, r.0, r.1) { seq![(r.0, r.1)] } else { Seq::<KeyView>::empty() };
        lemma_removed_keys_contain(w, docs, key);
        lemma_concat_contains(removed_keys(w, docs), tail, key);
        assert(removed_keys(prev, docs) == removed_keys(w, docs) + tail);
        assert(prev[n] == r);
        if tail.contains(key) {
            assert(tail[0] == key);
        }
        if exists|j: int| 0 <= j < prev.len() && (#[trigger] prev[j]).0 == key.0 && prev[j].1 == key.1 {
            let j = choose|j: int| 0 <= j < prev.len() && (#[trigger] prev[j]).0 == key.0 && prev[j].1 == key.1;
            if j < n {
                assert(w[j] == prev[j]);
            } else if !observed(docs, key.0, key.1) {
                assert(tail[0] == key);
            }
        }
        if removed_keys(w, docs).contains(key) {
            let j = choose|j: int| 0 <= j < w.len() && (#[trigger] w[j]).0 == key.0 && w[j].1 == key.1;
            assert(w[j] == prev[j]);
        }
    }
}

/// The rows a refresh leaves are what its plan writes: for every key, the
/// row found after the refresh is the previous row with the plan's
/// removals, upserts and stale marks applied.
pub proof fn lemma_applied_follows_plan(prev: Seq<RowView>, docs: Seq<DocView>, kind: Seq<char>, id: Seq<char>)
    requires
        distinct_keys(docs),
    ensures
        find_row(applied(prev, docs), kind, id) == plan_row(prev, docs, kind, id),
{
    let key = (kind, id);
    let a = applied(prev, docs);
    lemma_stale_keys_contain(docs, key);
    lemma_upsert_keys_contain(prev, docs, key);
    lemma_removed_keys_contain(prev, docs, key);
    lemma_find_row_some(prev, kind, id);
    lemma_find_row_key(prev, kind, id);
    if observed(docs, kind, id) {
        let m = choose|m: int| 0 <= m < docs.len() && docs[m].0 == kind && docs[m].1 == id;
        lemma_applied_find(prev, docs, m);
        assert forall|k: int| 0 <= k < docs.len() && (#[trigger] docs[k]).0 == kind && docs[k].1 == id implies k == m by {
            if k < m {
                assert(!(docs[k].0 == docs[m].0 && docs[k].1 == docs[m].1));
            } else if m < k {
                assert(!(docs[m].0 == docs[k].0 && docs[m].1 == docs[k].1));
            }
        }
        if docs[m].2 is Some && !unchanged(prev, docs[m]) {
            assert(upsert_keys(prev, docs).contains(key));
        } else if docs[m].2 is None {
            assert(stale_keys(docs).contains(key));
        }
    } else {
        lemma_applied_keys(prev, docs);
        assert forall|j: int| 0 <= j < a.len() implies !((#[trigger] a[j]).0 == kind && a[j].1 == id) by {
            assert(observed(docs, a[j].0, a[j].1));
        }
        lemma_find_row_absent(a, kind, id);
    }
}

/// Applying a refresh leaves the index settled against the sources it
/// observed, when no two of them are the same document.
pub proof fn lemma_applied_refresh_is_settled(prev: Seq<RowView>, docs: Seq<DocView>)
    requires
        distinct_keys(docs),
    ensures
        settled(applied(prev, docs), docs),
{
    let a = applied(prev, docs);
    assert forall|i: int| 0 <= i < docs.len() && (#[trigger] docs[i]).2 is Some implies unchanged(a, docs[i]) by {
        lemma_applied_find(prev, docs, i);
    }
    assert forall|i: int| 0 <= i < docs.len() && (#[trigger] docs[i]).2 is None implies !(find_row(a, docs[i].0, docs[i].1) matches Some(r) && r.3 != "stale"@) by {
        lemma_applied_find(prev, docs, i);
    }
    lemma_applied_keys(prev, docs);
}

/// Refreshing is idempotent: once a refresh of a project's documents (one
/// per kind and ID) is applied, refreshing the same sources with the same
/// diagnostics and no pending reconciliation writes no
/// rows, removes none, marks stale only rows that already are, and publishes
/// no events, so the stream's sequence stays where it is.
pub proof fn lemma_refresh_is_idempotent(
    project: Seq<char>,
    prev: Seq<RowView>,
    docs: Seq<DocView>,
    issues: Seq<(Seq<char>, Seq<char>)>,
)
    requires
        distinct_keys(docs),
    ensures
        settled(applied(prev, docs), docs),
        upsert_keys(applied(prev, docs), docs).len() == 0,
        removed_keys(applied(prev, docs), docs).len() == 0,
        unnumbered_events(project, applied(prev, docs), docs, issues_differ(issues, issues), false).len() == 0,
        numbered(unnumbered_events(project, applied(prev, docs), docs, issues_differ(issues, issues), false), 0).len() == 0,
{
    lemma_applied_refresh_is_settled(prev, docs);
    lemma_settled_refresh_is_quiet(project, applied(prev, docs), docs);
    assert(!issues_differ(issues, issues));
}

/// Events are numbered consecutively after the stream's sequence, whatever
/// they are.
pub proof fn lemma_numbering_consecutive(events: Seq<EventView>, sequence: int, i: int)
    requires
        0 <= i < events.len(),
    ensures
        numbered(events, sequence)[i].1 == sequence + 1 + i,
        numbered(events, sequence).len() == events.len(),
{
}

/// Marking a project unavailable publishes a health change under the next
/// sequence, unless nothing changed: no row became unavailable, the
/// diagnostic was already recorded, and no reconciliation ended.
pub fn unavailable_event(changed_rows: usize, issue_existed: bool, ended: usize, sequence: i64, project: &str) -> (res: Option<Event>)
    requires
        sequence < i64::MAX,
    ensures
        (changed_rows == 0 && issue_existed && ended == 0) ==> res is None,
        !(changed_rows == 0 && issue_existed && ended == 0) ==> (res matches Some(e) && event_view(e) == (
            EventKind::HealthChanged,
            sequence + 1,
            Some(project@),
            None::<KeyView>,
            None::<Seq<char>>,
            EventReason::ProjectUnavailable,
            None::<bool>,
        )),
{
    if changed_rows == 0 && issue_existed && ended == 0 {
        return None;
    }
    Some(Event {
        kind: EventKind::HealthChanged,
        sequence: sequence + 1,
        project_id: Some(project.to_owned()),
        target: None,
        version: None,
        reason: EventReason::ProjectUnavailable,
        tags_changed: None,
    })
}

/// A workspace change asks every client to resynchronise, under the next
/// sequence.
pub fn workspace_event(sequence: i64) -> (res: Event)
    requires
        sequence < i64::MAX,
    ensures
        event_view(res) == (
            EventKind::ResyncRequired,
            sequence + 1,
            None::<Seq<char>>,
            None::<KeyView>,
            None::<Seq<char>>,
            EventReason::WorkspaceChanged,
            None::<bool>,
        ),
{
    Event::bare(EventKind::ResyncRequired, sequence + 1, EventReason::WorkspaceChanged)
}

/// The targets with each kind and ID kept at its first occurrence, in
/// order.
pub open spec fn first_keys(s: Seq<KeyView>) -> Seq<KeyView>
    decreases s.len(),
{
    if s.len() == 0 {
        seq![]
    } else if first_keys(s.drop_last()).contains(s.last()) {
        first_keys(s.drop_last())
    } else {
        first_keys(s.drop_last()).push(s.last())
    }
}

/// A targeted refresh reads each document once: the keys it keeps never
/// repeat, and each was named by some target.
pub proof fn lemma_first_keys_distinct(s: Seq<KeyView>)
    ensures
        first_keys(s).no_duplicates(),
        forall|k: KeyView| first_keys(s).contains(k) ==> s.contains(k),
    decreases s.len(),
{
    if s.len() > 0 {
        let w = s.drop_last();
        lemma_first_keys_distinct(w);
        assert forall|k: KeyView| w.contains(k) implies s.contains(k) by {
            let i = choose|i: int| 0 <= i < w.len() && w[i] == k;
            assert(s[i] == w[i]);
        }
        assert(s[s.len() - 1] == s.last());
        if !first_keys(w).contains(s.last()) {
            let f = first_keys(w);
            let g = f.push(s.last());
            assert forall|a: int, b: int| 0 <= a < g.len() && 0 <= b < g.len() && a != b implies g[a] != g[b] by {
                if a < f.len() && b < f.len() {
                } else if a == f.len() {
                    assert(f.contains(f[b]));
                } else {
                    assert(f.contains(f[a]));
                }
            }
            assert forall|k: KeyView| g.contains(k) implies s.contains(k) by {
                let i = choose|i: int| 0 <= i < g.len() && g[i] == k;
                if i < f.len() {
                    assert(f.contains(f[i]));
                }
            }
        }
    }
}

fn has_key(keys: &Vec<(String, String)>, kind: &str, id: &str) -> (res: bool)
    ensures
        res == keys@.map_values(|k: (String, String)| key_view(k)).contains((kind@, id@)),
{
    let ghost kv = keys@.map_values(|k: (String, String)| key_view(k));
    let mut i: usize = 0;
    while i < keys.len()
        invariant
            i <= keys.len(),
            kv == keys@.map_values(|k: (String, String)| key_view(k)),
            forall|j: int| 0 <= j < i ==> kv[j] != (kind@, id@),
        decreases keys.len() - i,
    {
        if text_eq(keys[i].0.as_str(), kind) && text_eq(keys[i].1.as_str(), id) {
            assert(kv[i as int] == (kind@, id@));
            return true;
        }
        i = i + 1;
    }
    false
}

/// The documents a targeted refresh re-reads. Every target must name its
/// document by a UUID the `uuid` crate parses; one that does not refuses
/// the whole refresh, before anything is read. A target named twice is
/// read once.
pub fn refresh_keys(targets: &Vec<(String, String)>) -> (res: Result<Vec<(String, String)>, AppError>)
    ensures
        (exists|i: int| 0 <= i < targets@.len() && uuid_parse_spec(encode_utf8((#[trigger] targets@[i]).1@)) is None)
            ==> (res matches Err(e) && e matches AppError::Invariant(c) && c@ == "projection refresh target"@),
        !(exists|i: int| 0 <= i < targets@.len() && uuid_parse_spec(encode_utf8((#[trigger] targets@[i]).1@)) is None)
            ==> (res matches Ok(keys) && keys@.map_values(|k: (String, String)| key_view(k))
                == first_keys(targets@.map_values(|k: (String, String)| key_view(k)))),
{
    let ghost tv = targets@.map_values(|k: (String, String)| key_view(k));
    let mut i: usize = 0;
    while i < targets.len()
        invariant
            i <= targets.len(),
            forall|j: int| 0 <= j < i ==> uuid_parse_spec(encode_utf8((#[trigger] targets@[j]).1@)) is Some,
        decreases targets.len() - i,
    {
        if !uuid_parses(targets[i].1.as_str()) {
            return Err(AppError::invariant_failed("projection refresh target"));
        }
        i = i + 1;
    }
    let mut keys: Vec<(String, String)> = Vec::new();
    let mut k: usize = 0;
    proof {
        assert(tv.take(0) =~= Seq::<KeyView>::empty());
    }
    while k < targets.len()
        invariant
            k <= targets.len(),
            tv == targets@.map_values(|t: (String, String)| key_view(t)),
            keys@.map_values(|t: (String, String)| key_view(t)) == first_keys(tv.take(k as int)),
        decreases targets.len() - k,
    {
        let ghost before = first_keys(tv.take(k as int));
        assert(tv.take(k + 1).drop_last() =~= tv.take(k as int));
        assert(tv.take(k + 1).last() == tv[k as int]);
        assert(tv[k as int] == (targets@[k as int].0@, targets@[k as int].1@));
        if !has_key(&keys, targets[k].0.as_str(), targets[k].1.as_str()) {
            let entry = (targets[k].0.clone(), targets[k].1.clone());
            keys.push(entry);
            assert(keys@.map_values(|t: (String, String)| key_view(t)) =~= before.push(tv[k as int]));
        }
        k = k + 1;
    }
    assert(tv.take(k as int) =~= tv);
    Ok(keys)
}

} // verus!
