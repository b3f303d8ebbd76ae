//! Queries over the projection: which filters a query may carry, how a page
//! is bounded, how its search words become a full-text expression, and how a
//! page's rows and freshness are reported.
use crate::ids::{canonical_uuid, canonical_uuid_spec};
use crate::reply::{is_rejection, AppError};
use crate::text::{is_space, space_char, text_eq};
use vstd::string::StringSliceAdditionalSpecFns;
use vstd::prelude::*;

verus! {

/// A projection query, as a client sends it.
pub struct Query {
    pub project: Option<String>,
    pub status: Option<String>,
    pub priority: Option<String>,
    pub label: Option<String>,
    pub milestone_id: Option<String>,
    pub target_type: Option<String>,
    pub target_id: Option<String>,
    pub archived: Option<bool>,
    pub search: Option<String>,
    pub cursor: Option<String>,
    pub limit: Option<u32>,
}

/// The page size when a query names none.
pub const DEFAULT_LIMIT: u32 = 50;

/// The longest search, in characters.
pub const MAX_SEARCH: usize = 256;

/// The longest cursor, in bytes.
pub const MAX_CURSOR: usize = 4096;

pub open spec fn opt_text(o: Option<String>) -> Option<Seq<char>> {
    match o {
        Some(s) => Some(s@),
        None => None,
    }
}

/// A report-target filter is either absent, or a kind and a canonical
/// version 4 ID together, on a query of updates.
pub open spec fn target_filter_ok(kind: Option<Seq<char>>, target_type: Option<Seq<char>>, target_id: Option<Seq<char>>) -> bool {
    match (target_type, target_id) {
        (None, None) => true,
        (Some(t), Some(id)) => kind == Some("update"@) && (t == "project"@ || t == "card"@ || t == "milestone"@)
            && canonical_uuid_spec(id, 4),
        _ => false,
    }
}

pub open spec fn limit_of(q: Query) -> u32 {
    match q.limit {
        Some(l) => l,
        None => DEFAULT_LIMIT,
    }
}

pub open spec fn limit_ok(q: Query, max: u32) -> bool {
    &&& limit_of(q) != 0
    &&& limit_of(q) <= max
    &&& match q.search {
        Some(s) => s@.len() <= MAX_SEARCH,
        None => true,
    }
}

fn opt_eq(a: Option<&str>, b: &str) -> (res: bool)
    ensures
        res == (match a {
            Some(x) => x@ == b@,
            None => false,
        }),
{
    match a {
        Some(x) => text_eq(x, b),
        None => false,
    }
}

/// Checks a query's filters and bounds and gives the page size. A target
/// filter that is not a valid pair on a query of updates is
/// `422 INVALID_TARGET_FILTER`; a page size of zero or above `max`, or a
/// search longer than 256 characters, is `422 QUERY_LIMIT`.
pub fn check_query(kind: Option<&str>, query: &Query, max: u32) -> (res: Result<u32, AppError>)
    ensures
        ({
            let k = match kind {
                Some(k) => Some(k@),
                None => None,
            };
            if !target_filter_ok(k, opt_text(query.target_type), opt_text(query.target_id)) {
                res matches Err(e) && is_rejection(e, 422, "INVALID_TARGET_FILTER"@)
            } else if !limit_ok(*query, max) {
                res matches Err(e) && is_rejection(e, 422, "QUERY_LIMIT"@)
            } else {
                res == Ok::<u32, AppError>(limit_of(*query))
            }
        }),
{
    let filter_ok = match (&query.target_type, &query.target_id) {
        (None, None) => true,
        (Some(t), Some(id)) => {
            opt_eq(kind, "update") && (text_eq(t.as_str(), "project") || text_eq(t.as_str(), "card")
                || text_eq(t.as_str(), "milestone")) && canonical_uuid(id.as_str(), 4)
        },
        _ => false,
    };
    if !filter_ok {
        return Err(AppError::reject(422, "INVALID_TARGET_FILTER"));
    }
    let limit = match query.limit {
        Some(l) => l,
        None => DEFAULT_LIMIT,
    };
    let long_search = match &query.search {
        Some(s) => s.unicode_len() > MAX_SEARCH,
        None => false,
    };
    if limit == 0 || limit > max || long_search {
        return Err(AppError::reject(422, "QUERY_LIMIT"));
    }
    Ok(limit)
}

/// A cursor longer than 4096 bytes is refused before it is parsed.
pub fn cursor_length_ok(cursor: &str) -> (res: Result<(), AppError>)
    ensures
        cursor.spec_bytes().len() <= MAX_CURSOR ==> res is Ok,
        cursor.spec_bytes().len() > MAX_CURSOR ==> (res matches Err(e) && is_rejection(e, 422, "INVALID_CURSOR"@)),
{
    if cursor.as_bytes().len() > MAX_CURSOR {
        Err(AppError::reject(422, "INVALID_CURSOR"))
    } else {
        Ok(())
    }
}

/// A parsed cursor's claims against the current page: a revision or query
/// other than the current ones is `409 CURSOR_STALE`; an offset that is
/// absent or negative is `422 INVALID_CURSOR`.
pub fn cursor_offset(
    revision_matches: bool,
    query_matches: bool,
    offset: Option<i64>,
) -> (res: Result<i64, AppError>)
    ensures
        !(revision_matches && query_matches) ==> (res matches Err(e) && is_rejection(e, 409, "CURSOR_STALE"@)),
        revision_matches && query_matches ==> match offset {
            Some(n) if n >= 0 => res == Ok::<i64, AppError>(n),
            _ => res matches Err(e) && is_rejection(e, 422, "INVALID_CURSOR"@),
        },
{
    if !(revision_matches && query_matches) {
        return Err(AppError::reject(409, "CURSOR_STALE"));
    }
    match offset {
        Some(n) => if n >= 0 {
            Ok(n)
        } else {
            Err(AppError::reject(422, "INVALID_CURSOR"))
        },
        None => Err(AppError::reject(422, "INVALID_CURSOR")),
    }
}

/// How a page of at most `limit` rows is cut from the `fetched` rows that a
/// query read with one extra row: whether more follow, how many rows stay,
/// and the offset of the next page when more follow.
pub struct PageCut {
    pub more: bool,
    pub keep: usize,
    pub next_offset: Option<i64>,
}

pub fn page_cut(fetched: usize, limit: u32, offset: i64) -> (res: PageCut)
    requires
        0 <= offset,
        offset + limit <= i64::MAX,
    ensures
        res.more == (fetched > limit),
        res.keep == (if fetched > limit { limit as usize } else { fetched }),
        res.next_offset == (if fetched > limit { Some((offset + limit) as i64) } else { None::<i64> }),
{
    let more = fetched > limit as usize;
    PageCut {
        more,
        keep: if more { limit as usize } else { fetched },
        next_offset: if more { Some(offset + limit as i64) } else { None },
    }
}

/// The path of a document relative to its project's metadata directory.
pub open spec fn relative_path_spec(kind: Seq<char>, id: Seq<char>) -> Seq<char> {
    if kind == "project"@ {
        "project.md"@
    } else {
        kind + "s/"@ + id + ".md"@
    }
}

pub fn relative_path(kind: &str, id: &str) -> (res: String)
    ensures
        res@ == relative_path_spec(kind@, id@),
{
    if text_eq(kind, "project") {
        "project.md".to_owned()
    } else {
        let mut out = kind.to_owned();
        out.append("s/");
        out.append(id);
        out.append(".md");
        out
    }
}

/// How a row's validity is shown: valid rows are ready, unavailable and
/// invalid rows say so, and every other row is stale.
pub open spec fn availability_spec(validity: Seq<char>) -> Seq<char> {
    if validity == "valid"@ {
        "ready"@
    } else if validity == "unavailable"@ {
        "unavailable"@
    } else if validity == "invalid"@ {
        "invalid"@
    } else {
        "stale"@
    }
}

pub fn availability(validity: &str) -> (res: &'static str)
    ensures
        res@ == availability_spec(validity@),
{
    if text_eq(validity, "valid") {
        "ready"
    } else if text_eq(validity, "unavailable") {
        "unavailable"
    } else if text_eq(validity, "invalid") {
        "invalid"
    } else {
        "stale"
    }
}

/// What marking reads of a row: its project and its validity.
pub struct RowStatus {
    pub project_id: String,
    pub validity: String,
}

pub open spec fn marked_validity(row: (Seq<char>, Seq<char>), pending: Seq<Seq<char>>) -> Seq<char> {
    if row.1 == "valid"@ && pending.contains(row.0) {
        "stale"@
    } else {
        row.1
    }
}

pub open spec fn row_status_view(r: RowStatus) -> (Seq<char>, Seq<char>) {
    (r.project_id@, r.validity@)
}

fn contains_text(list: &Vec<String>, value: &str) -> (res: bool)
    ensures
        res == list@.map_values(|s: String| s@).contains(value@),
{
    let ghost v = list@.map_values(|s: String| s@);
    let mut i: usize = 0;
    while i < list.len()
        invariant
            i <= list.len(),
            v == list@.map_values(|s: String| s@),
            forall|j: int| 0 <= j < i ==> v[j] != value@,
        decreases list.len() - i,
    {
        if text_eq(list[i].as_str(), value) {
            assert(v[i as int] == value@);
            return true;
        }
        i = i + 1;
    }
    false
}

/// Rows of projects still awaiting reconciliation cannot be vouched for:
/// a valid row of a pending project reads as stale.
pub fn mark_rows(rows: &mut Vec<RowStatus>, pending: &Vec<String>)
    ensures
        final(rows)@.len() == old(rows)@.len(),
        forall|i: int| 0 <= i < final(rows)@.len() ==> (#[trigger] final(rows)@[i]).project_id@ == old(rows)@[i].project_id@
            && final(rows)@[i].validity@ == marked_validity(row_status_view(old(rows)@[i]), pending@.map_values(|s: String| s@)),
{
    let ghost original = rows@;
    let mut i: usize = 0;
    while i < rows.len()
        invariant
            i <= rows.len(),
            rows@.len() == original.len(),
            forall|j: int| 0 <= j < i ==> (#[trigger] rows@[j]).project_id@ == original[j].project_id@
                && rows@[j].validity@ == marked_validity(row_status_view(original[j]), pending@.map_values(|s: String| s@)),
            forall|j: int| i <= j < rows@.len() ==> #[trigger] rows@[j] == original[j],
        decreases rows.len() - i,
    {
        let stale = text_eq(rows[i].validity.as_str(), "valid") && contains_text(pending, rows[i].project_id.as_str());
        if stale {
            let project_id = rows[i].project_id.clone();
            rows.set(i, RowStatus { project_id, validity: "stale".to_owned() });
        }
        i = i + 1;
    }
}

/// A page is stale while its projects await reconciliation or any of its
/// rows is not valid; otherwise it is an index snapshot.
pub fn freshness(pending: bool, rows: &Vec<RowStatus>) -> (res: &'static str)
    ensures
        res@ == (if pending || exists|i: int| 0 <= i < rows@.len() && (#[trigger] rows@[i]).validity@ != "valid"@ {
            "stale"@
        } else {
            "index_snapshot"@
        }),
{
    if pending {
        return "stale";
    }
    let mut i: usize = 0;
    while i < rows.len()
        invariant
            i <= rows.len(),
            forall|j: int| 0 <= j < i ==> (#[trigger] rows@[j]).validity@ == "valid"@,
        decreases rows.len() - i,
    {
        if !text_eq(rows[i].validity.as_str(), "valid") {
            return "stale";
        }
        i = i + 1;
    }
    "index_snapshot"
}

/// The runs of `s` between white space, empty runs included.
pub open spec fn split_space(s: Seq<char>) -> Seq<Seq<char>>
    decreases s.len(),
{
    if s.len() == 0 {
        seq![seq![]]
    } else {
        let prev = split_space(s.drop_last());
        if is_space(s.last()) {
            prev.push(seq![])
        } else {
            prev.update(prev.len() - 1, prev.last().push(s.last()))
        }
    }
}

/// A word with each double quote doubled, as FTS5 string syntax escapes it.
pub open spec fn escape_quotes(w: Seq<char>) -> Seq<char>
    decreases w.len(),
{
    if w.len() == 0 {
        seq![]
    } else {
        escape_quotes(w.drop_last()) + if w.last() == '"' {
            seq!['"', '"']
        } else {
            seq![w.last()]
        }
    }
}

/// A word as a quoted prefix query.
pub open spec fn prefix_term(w: Seq<char>) -> Seq<char> {
    seq!['"'] + escape_quotes(w) + seq!['"', '*']
}

/// The prefix terms of the non-empty runs, in order.
pub open spec fn search_terms(runs: Seq<Seq<char>>) -> Seq<Seq<char>>
    decreases runs.len(),
{
    if runs.len() == 0 {
        seq![]
    } else if runs.last().len() == 0 {
        search_terms(runs.drop_last())
    } else {
        search_terms(runs.drop_last()).push(prefix_term(runs.last()))
    }
}

/// Terms joined by ` AND `.
pub open spec fn join_and(terms: Seq<Seq<char>>) -> Seq<char>
    decreases terms.len(),
{
    if terms.len() == 0 {
        seq![]
    } else if terms.len() == 1 {
        terms[0]
    } else {
        join_and(terms.drop_last()) + " AND "@ + terms.last()
    }
}

/// The full-text expression of a search: every word must begin some indexed
/// word. A search of white space alone matches without restriction.
pub open spec fn match_expression(search: Seq<char>) -> Option<Seq<char>> {
    let terms = search_terms(split_space(search));
    if terms.len() == 0 {
        None
    } else {
        Some(join_and(terms))
    }
}

proof fn lemma_join_push(terms: Seq<Seq<char>>, t: Seq<char>)
    ensures
        join_and(terms.push(t)) == if terms.len() == 0 {
            t
        } else {
            join_and(terms) + " AND "@ + t
        },
{
    assert(terms.push(t).drop_last() =~= terms);
}

/// Ends the current word: appends its term when it is not empty.
fn end_word(out: &mut String, escaped: &String, have: bool, Ghost(done): Ghost<Seq<Seq<char>>>, Ghost(word): Ghost<Seq<char>>) -> (res: bool)
    requires
        escaped@ == escape_quotes(word),
        old(out)@ == join_and(search_terms(done)),
        have == (search_terms(done).len() > 0),
    ensures
        final(out)@ == join_and(search_terms(done.push(word))),
        res == (search_terms(done.push(word)).len() > 0),
{
    proof {
        reveal_strlit("\"");
        reveal_strlit("\"*");
        assert(done.push(word).drop_last() =~= done);
    }
    if escaped.unicode_len() > 0 {
        proof {
            assert(word.len() > 0) by {
                if word.len() == 0 {
                    assert(escape_quotes(word) =~= Seq::<char>::empty());
                }
            }
            lemma_join_push(search_terms(done), prefix_term(word));
        }
        if have {
            out.append(" AND ");
        }
        out.append("\"");
        out.append(escaped.as_str());
        out.append("\"*");
        proof {
            assert(search_terms(done.push(word)) == search_terms(done).push(prefix_term(word)));
            assert(out@ =~= join_and(search_terms(done.push(word))));
        }
        true
    } else {
        proof {
            assert(word.len() == 0) by {
                if word.len() > 0 {
                    lemma_escape_nonempty(word);
                }
            }
            assert(search_terms(done.push(word)) == search_terms(done));
        }
        have
    }
}

/// Builds the `MATCH` expression for a search, or `None` when it has no words.
pub fn search_match(search: &str) -> (res: Option<String>)
    ensures
        res matches Some(m) ==> match_expression(search@) == Some(m@),
        res is None ==> match_expression(search@) is None,
{
    let n = search.unicode_len();
    let ghost mut done: Seq<Seq<char>> = seq![];
    let ghost mut word: Seq<char> = seq![];
    let mut escaped = String::new();
    let mut out = String::new();
    let mut have = false;
    let mut i: usize = 0;
    proof {
        reveal_strlit("\"\"");
    }
    while i < n
        invariant
            i <= n,
            n == search@.len(),
            split_space(search@.take(i as int)) == done.push(word),
            escaped@ == escape_quotes(word),
            out@ == join_and(search_terms(done)),
            have == (search_terms(done).len() > 0),
            "\"\""@ == seq!['"', '"'],
        decreases n - i,
    {
        let c = search.get_char(i);
        proof {
            assert(search@.take(i + 1).drop_last() =~= search@.take(i as int));
            assert(search@.take(i + 1).last() == c);
        }
        if space_char(c) {
            have = end_word(&mut out, &escaped, have, Ghost(done), Ghost(word));
            proof {
                done = done.push(word);
                word = seq![];
            }
            escaped = String::new();
        } else {
            let piece = search.substring_char(i, i + 1);
            proof {
                assert(piece@ =~= seq![c]);
                let prev = done.push(word);
                assert(prev.update(prev.len() - 1, prev.last().push(c)) =~= done.push(word.push(c)));
                assert(word.push(c).drop_last() =~= word);
                word = word.push(c);
            }
            if c == '"' {
                escaped.append("\"\"");
            } else {
                escaped.append(piece);
            }
        }
        i = i + 1;
    }
    assert(search@.take(i as int) =~= search@);
    let have = end_word(&mut out, &escaped, have, Ghost(done), Ghost(word));
    if have {
        Some(out)
    } else {
        None
    }
}

proof fn lemma_escape_nonempty(w: Seq<char>)
    requires
        w.len() > 0,
    ensures
        escape_quotes(w).len() > 0,
    decreases w.len(),
{
    if w.drop_last().len() > 0 {
        lemma_escape_nonempty(w.drop_last());
    }
}

/// A line appended to the searchable text, when there is one.
pub open spec fn line(v: Option<Seq<char>>) -> Seq<char> {
    match v {
        Some(t) => "\n"@ + t,
        None => seq![],
    }
}

/// The acceptance items' lines, in order.
pub open spec fn acceptance_lines(items: Seq<Option<Seq<char>>>) -> Seq<char>
    decreases items.len(),
{
    if items.len() == 0 {
        seq![]
    } else {
        acceptance_lines(items.drop_last()) + line(items.last())
    }
}

pub open spec fn opt_views(v: Seq<Option<String>>) -> Seq<Option<Seq<char>>> {
    v.map_values(|o: Option<String>| opt_text(o))
}

fn append_line(out: &mut String, value: &Option<String>)
    ensures
        final(out)@ == old(out)@ + line(opt_text(*value)),
{
    match value {
        Some(t) => {
            out.append("\n");
            out.append(t.as_str());
            proof {
                assert(final(out)@ =~= old(out)@ + ("\n"@ + t@)) by {
                    assert(old(out)@ + "\n"@ + t@ =~= old(out)@ + ("\n"@ + t@));
                }
            }
        },
        None => {
            assert(old(out)@ + line(opt_text(*value)) =~= old(out)@);
        },
    }
}

/// The text a document is searched by: its body, then its expected result
/// and its owner, then the text of each acceptance item, each on a line of
/// its own. Fields that are not strings add nothing.
pub fn search_text(body: &str, expected_result: &Option<String>, owner: &Option<String>, acceptance: &Vec<Option<String>>) -> (res: String)
    ensures
        res@ == body@ + line(opt_text(*expected_result)) + line(opt_text(*owner)) + acceptance_lines(opt_views(acceptance@)),
{
    let mut out = body.to_owned();
    append_line(&mut out, expected_result);
    append_line(&mut out, owner);
    let ghost head = out@;
    let mut i: usize = 0;
    assert(acceptance_lines(opt_views(acceptance@).take(0)) =~= Seq::<char>::empty()) by {
        assert(opt_views(acceptance@).take(0) =~= Seq::<Option<Seq<char>>>::empty());
    }
    while i < acceptance.len()
        invariant
            i <= acceptance.len(),
            out@ == head + acceptance_lines(opt_views(acceptance@).take(i as int)),
        decreases acceptance.len() - i,
    {
        let ghost t = opt_views(acceptance@).take(i + 1);
        assert(t.drop_last() =~= opt_views(acceptance@).take(i as int));
        assert(t.last() == opt_text(acceptance@[i as int]));
        append_line(&mut out, &acceptance[i]);
        assert(out@ =~= head + acceptance_lines(t));
        i = i + 1;
    }
    assert(opt_views(acceptance@).take(i as int) =~= opt_views(acceptance@));
    out
}

/// The title a summary shows: `title`, else `name`, else `summary`, else
/// `Unavailable`.
pub fn summary_title<'a>(title: Option<&'a str>, name: Option<&'a str>, summary: Option<&'a str>) -> (res: &'a str)
    ensures
        res@ == (match title {
            Some(t) => t@,
            None => match name {
                Some(n) => n@,
                None => match summary {
                    Some(s) => s@,
                    None => "Unavailable"@,
                },
            },
        }),
{
    match title {
        Some(t) => t,
        None => match name {
            Some(n) => n,
            None => match summary {
                Some(s) => s,
                None => "Unavailable",
            },
        },
    }
}

/// How many acceptance items there are and how many are completed.
pub fn acceptance_progress(completed: &Vec<bool>) -> (res: (usize, usize))
    ensures
        res.0 == completed@.len(),
        res.1 == completed@.filter(|c: bool| c).len(),
{
    let mut done: usize = 0;
    let mut i: usize = 0;
    proof {
        reveal(Seq::filter);
        assert(completed@.take(0) =~= Seq::<bool>::empty());
    }
    while i < completed.len()
        invariant
            i <= completed.len(),
            done == completed@.take(i as int).filter(|c: bool| c).len(),
            done <= i,
        decreases completed.len() - i,
    {
        proof {
            reveal(Seq::filter);
            assert(completed@.take(i + 1).drop_last() =~= completed@.take(i as int));
        }
        if completed[i] {
            done = done + 1;
        }
        i = i + 1;
    }
    assert(completed@.take(i as int) =~= completed@);
    (completed.len(), done)
}

} // verus!
