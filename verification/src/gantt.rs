//! The dependency edges a gantt page draws: one per dependency of each row,
//! marking whether the predecessor is off the page and what is wrong with
//! it.
use crate::text::{text_eq, text_less, text_lt};
use vstd::prelude::*;

verus! {

/// A row of the page, by what its edges read: its ID, its scheduled start,
/// and the IDs it depends on.
pub struct GanttRow {
    pub id: String,
    pub start: Option<String>,
    pub depends_on: Vec<String>,
}

/// A predecessor card as the index holds it: its scheduled end and whether
/// its projection is valid.
pub struct Predecessor {
    pub id: String,
    pub end: Option<String>,
    pub valid: bool,
}

#[derive(Debug, Clone, Copy, PartialEq, Eq, Structural)]
pub enum EdgeWarning {
    DependencyMissing,
    DependencyStale,
    DependencyDateConflict,
}

impl EdgeWarning {
    pub fn as_str(&self) -> (res: &'static str)
        ensures
            res@ == warning_code(*self),
    {
        match self {
            EdgeWarning::DependencyMissing => "DEPENDENCY_MISSING",
            EdgeWarning::DependencyStale => "DEPENDENCY_STALE",
            EdgeWarning::DependencyDateConflict => "DEPENDENCY_DATE_CONFLICT",
        }
    }
}

pub open spec fn warning_code(w: EdgeWarning) -> Seq<char> {
    match w {
        EdgeWarning::DependencyMissing => "DEPENDENCY_MISSING"@,
        EdgeWarning::DependencyStale => "DEPENDENCY_STALE"@,
        EdgeWarning::DependencyDateConflict => "DEPENDENCY_DATE_CONFLICT"@,
    }
}

/// A finish-to-start edge from a predecessor to a row.
pub struct Edge {
    pub from: String,
    pub to: String,
    pub outside_page: bool,
    pub warning: Option<EdgeWarning>,
}

pub type RowView = (Seq<char>, Option<Seq<char>>, Seq<Seq<char>>);

pub type PredView = (Seq<char>, Option<Seq<char>>, bool);

pub type EdgeView = (Seq<char>, Seq<char>, bool, Option<EdgeWarning>);

pub open spec fn opt_text(o: Option<String>) -> Option<Seq<char>> {
    match o {
        Some(s) => Some(s@),
        None => None,
    }
}

pub open spec fn row_view(r: GanttRow) -> RowView {
    (r.id@, opt_text(r.start), r.depends_on@.map_values(|d: String| d@))
}

pub open spec fn pred_view(p: Predecessor) -> PredView {
    (p.id@, opt_text(p.end), p.valid)
}

pub open spec fn edge_view(e: Edge) -> EdgeView {
    (e.from@, e.to@, e.outside_page, e.warning)
}

/// The first predecessor with this ID.
pub open spec fn find_pred(preds: Seq<PredView>, id: Seq<char>) -> Option<PredView>
    decreases preds.len(),
{
    if preds.len() == 0 {
        None
    } else if preds[0].0 == id {
        Some(preds[0])
    } else {
        find_pred(preds.drop_first(), id)
    }
}

/// What is wrong with a dependency: a predecessor the index does not hold
/// is missing; an invalid one, or any on a stale projection, is stale; one
/// that ends on or after the day the row starts conflicts.
pub open spec fn warning_spec(pred: Option<PredView>, stale: bool, start: Option<Seq<char>>) -> Option<EdgeWarning> {
    match pred {
        None => Some(EdgeWarning::DependencyMissing),
        Some(p) => if !p.2 || stale {
            Some(EdgeWarning::DependencyStale)
        } else if (p.1 matches Some(end) && start matches Some(s) && (s == end || text_lt(s, end))) {
            Some(EdgeWarning::DependencyDateConflict)
        } else {
            None
        },
    }
}

pub open spec fn on_page(rows: Seq<RowView>, id: Seq<char>) -> bool {
    exists|i: int| 0 <= i < rows.len() && (#[trigger] rows[i]).0 == id
}

pub open spec fn row_edges(row: RowView, rows: Seq<RowView>, preds: Seq<PredView>, stale: bool) -> Seq<EdgeView> {
    row.2.map_values(|d: Seq<char>| (d, row.0, !on_page(rows, d), warning_spec(find_pred(preds, d), stale, row.1)))
}

/// The edges of the rows of `prefix`, row after row, each row's in the
/// order of its dependencies.
pub open spec fn edges_spec(prefix: Seq<RowView>, rows: Seq<RowView>, preds: Seq<PredView>, stale: bool) -> Seq<EdgeView>
    decreases prefix.len(),
{
    if prefix.len() == 0 {
        Seq::empty()
    } else {
        edges_spec(prefix.drop_last(), rows, preds, stale) + row_edges(prefix.last(), rows, preds, stale)
    }
}

fn lookup(preds: &Vec<Predecessor>, id: &str) -> (res: Option<usize>)
    ensures
        match res {
            Some(i) => i < preds@.len() && find_pred(preds@.map_values(|p: Predecessor| pred_view(p)), id@) == Some(pred_view(preds@[i as int])),
            None => find_pred(preds@.map_values(|p: Predecessor| pred_view(p)), id@) is None,
        },
{
    let ghost all = preds@.map_values(|p: Predecessor| pred_view(p));
    let mut i: usize = 0;
    assert(all.skip(0) =~= all);
    while i < preds.len()
        invariant
            i <= preds@.len(),
            all == preds@.map_values(|p: Predecessor| pred_view(p)),
            find_pred(all, id@) == find_pred(all.skip(i as int), id@),
        decreases preds@.len() - i,
    {
        proof {
            let rest = all.skip(i as int);
            assert(rest[0] == pred_view(preds@[i as int]));
            assert(rest.drop_first() =~= all.skip(i + 1));
        }
        if text_eq(preds[i].id.as_str(), id) {
            return Some(i);
        }
        i = i + 1;
    }
    proof {
        assert(all.skip(i as int).len() == 0);
    }
    None
}

fn page_holds(rows: &Vec<GanttRow>, id: &str) -> (res: bool)
    ensures
        res == on_page(rows@.map_values(|r: GanttRow| row_view(r)), id@),
{
    let ghost all = rows@.map_values(|r: GanttRow| row_view(r));
    let mut i: usize = 0;
    while i < rows.len()
        invariant
            i <= rows@.len(),
            all == rows@.map_values(|r: GanttRow| row_view(r)),
            forall|j: int| 0 <= j < i ==> (#[trigger] all[j]).0 != id@,
        decreases rows@.len() - i,
    {
        assert(all[i as int].0 == rows@[i as int].id@);
        if text_eq(rows[i].id.as_str(), id) {
            return true;
        }
        i = i + 1;
    }
    false
}

fn warning(pred: Option<&Predecessor>, stale: bool, start: &Option<String>) -> (res: Option<EdgeWarning>)
    ensures
        res == warning_spec(
            match pred {
                Some(p) => Some(pred_view(*p)),
                None => None,
            },
            stale,
            opt_text(*start),
        ),
{
    match pred {
        None => Some(EdgeWarning::DependencyMissing),
        Some(p) => {
            if !p.valid || stale {
                return Some(EdgeWarning::DependencyStale);
            }
            match (&p.end, start) {
                (Some(end), Some(s)) => {
                    if text_eq(s.as_str(), end.as_str()) || text_less(s.as_str(), end.as_str()) {
                        Some(EdgeWarning::DependencyDateConflict)
                    } else {
                        None
                    }
                },
                _ => None,
            }
        },
    }
}

/// The edges of a gantt page. `stale` is whether the project's projection
/// is stale.
pub fn edges(rows: &Vec<GanttRow>, preds: &Vec<Predecessor>, stale: bool) -> (res: Vec<Edge>)
    ensures
        res@.map_values(|e: Edge| edge_view(e)) == edges_spec(
            rows@.map_values(|r: GanttRow| row_view(r)),
            rows@.map_values(|r: GanttRow| row_view(r)),
            preds@.map_values(|p: Predecessor| pred_view(p)),
            stale,
        ),
{
    let ghost rv = rows@.map_values(|r: GanttRow| row_view(r));
    let ghost pv = preds@.map_values(|p: Predecessor| pred_view(p));
    let mut out: Vec<Edge> = Vec::new();
    let mut i: usize = 0;
    proof {
        assert(rv.take(0) =~= Seq::<RowView>::empty());
    }
    while i < rows.len()
        invariant
            i <= rows@.len(),
            rv == rows@.map_values(|r: GanttRow| row_view(r)),
            pv == preds@.map_values(|p: Predecessor| pred_view(p)),
            out@.map_values(|e: Edge| edge_view(e)) == edges_spec(rv.take(i as int), rv, pv, stale),
        decreases rows@.len() - i,
    {
        let row = &rows[i];
        let ghost head = out@.map_values(|e: Edge| edge_view(e));
        let ghost want = row_edges(rv[i as int], rv, pv, stale);
        assert(rv[i as int] == row_view(rows@[i as int]));
        let mut j: usize = 0;
        while j < row.depends_on.len()
            invariant
                j <= row.depends_on@.len(),
                i < rows@.len(),
                row == &rows@[i as int],
                rv == rows@.map_values(|r: GanttRow| row_view(r)),
                pv == preds@.map_values(|p: Predecessor| pred_view(p)),
                want == row_edges(rv[i as int], rv, pv, stale),
                rv[i as int] == row_view(rows@[i as int]),
                out@.map_values(|e: Edge| edge_view(e)) == head + want.take(j as int),
            decreases row.depends_on@.len() - j,
        {
            let dep = row.depends_on[j].as_str();
            let found = lookup(preds, dep);
            let pred = match found {
                Some(k) => Some(&preds[k]),
                None => None,
            };
            let w = warning(pred, stale, &row.start);
            let outside = !page_holds(rows, dep);
            let ghost prev = out@.map_values(|e: Edge| edge_view(e));
            out.push(Edge { from: dep.to_owned(), to: row.id.clone(), outside_page: outside, warning: w });
            proof {
                assert(rv[i as int].2[j as int] == dep@);
                assert(want[j as int] == (dep@, row.id@, outside, w));
                assert(out@.map_values(|e: Edge| edge_view(e)) =~= prev.push(want[j as int]));
                assert(want.take(j + 1) =~= want.take(j as int).push(want[j as int]));
            }
            j = j + 1;
        }
        proof {
            assert(want.take(j as int) =~= want);
            let t = rv.take(i + 1);
            assert(t.drop_last() =~= rv.take(i as int));
            assert(t.last() == rv[i as int]);
        }
        i = i + 1;
    }
    proof {
        assert(rv.take(i as int) =~= rv);
    }
    out
}

/// What each warning means: a dependency is missing exactly when the index
/// holds no predecessor of its ID; stale exactly when the predecessor is
/// invalid or the projection is stale; in date conflict exactly when,
/// besides, the row has a start and the predecessor an end, and the row
/// starts on or before that end. No warning otherwise, in particular when
/// the row has no start or the predecessor no end.
pub proof fn lemma_edge_warning(pred: Option<PredView>, stale: bool, start: Option<Seq<char>>)
    ensures
        warning_spec(pred, stale, start) == Some(EdgeWarning::DependencyMissing) <==> pred is None,
        warning_spec(pred, stale, start) == Some(EdgeWarning::DependencyStale) <==> (pred matches Some(p) && (!p.2 || stale)),
        warning_spec(pred, stale, start) == Some(EdgeWarning::DependencyDateConflict) <==> (pred matches Some(p) && p.2 && !stale
            && p.1 is Some && start is Some && (start->0 == p.1->0 || text_lt(start->0, p.1->0))),
        warning_spec(pred, stale, start) is None <==> (pred matches Some(p) && p.2 && !stale
            && !(p.1 is Some && start is Some && (start->0 == p.1->0 || text_lt(start->0, p.1->0)))),
        start is None ==> warning_spec(pred, stale, start) != Some(EdgeWarning::DependencyDateConflict),
{
}

/// How many dependencies the rows of `prefix` name.
pub open spec fn dependency_count(prefix: Seq<RowView>) -> nat
    decreases prefix.len(),
{
    if prefix.len() == 0 {
        0
    } else {
        dependency_count(prefix.drop_last()) + prefix.last().2.len()
    }
}

/// The edge a row's `k`th dependency draws: from the predecessor to the row,
/// off the page when no row of the page has the predecessor's ID, with the
/// predecessor's warning.
pub open spec fn dependency_edge(row: RowView, k: int, rows: Seq<RowView>, preds: Seq<PredView>, stale: bool) -> EdgeView {
    (row.2[k], row.0, !on_page(rows, row.2[k]), warning_spec(find_pred(preds, row.2[k]), stale, row.1))
}

/// Every dependency of every row of `prefix` has its edge among `edges`.
pub open spec fn edges_complete(edges: Seq<EdgeView>, prefix: Seq<RowView>, rows: Seq<RowView>, preds: Seq<PredView>, stale: bool) -> bool {
    forall|r: int, k: int| 0 <= r < prefix.len() && 0 <= k < prefix[r].2.len() ==> #[trigger] has_edge(edges, dependency_edge(prefix[r], k, rows, preds, stale))
}

pub open spec fn has_edge(edges: Seq<EdgeView>, e: EdgeView) -> bool {
    exists|i: int| 0 <= i < edges.len() && edges[i] == e
}

/// Every edge among `edges` is the edge of a dependency of a row of
/// `prefix`.
pub open spec fn edges_sound(edges: Seq<EdgeView>, prefix: Seq<RowView>, rows: Seq<RowView>, preds: Seq<PredView>, stale: bool) -> bool {
    forall|i: int| 0 <= i < edges.len() ==> #[trigger] drawn_for(prefix, edges[i], rows, preds, stale)
}

pub open spec fn drawn_for(prefix: Seq<RowView>, e: EdgeView, rows: Seq<RowView>, preds: Seq<PredView>, stale: bool) -> bool {
    exists|r: int, k: int| 0 <= r < prefix.len() && 0 <= k < prefix[r].2.len() && e == dependency_edge(prefix[r], k, rows, preds, stale)
}

/// A page draws one edge per dependency and no other: there are as many
/// edges as dependencies, every dependency of every row has its edge, and
/// every edge is a row's dependency.
pub proof fn lemma_edges_cover(prefix: Seq<RowView>, rows: Seq<RowView>, preds: Seq<PredView>, stale: bool)
    ensures
        edges_spec(prefix, rows, preds, stale).len() == dependency_count(prefix),
        edges_complete(edges_spec(prefix, rows, preds, stale), prefix, rows, preds, stale),
        edges_sound(edges_spec(prefix, rows, preds, stale), prefix, rows, preds, stale),
    decreases prefix.len(),
{
    if prefix.len() > 0 {
        let w = prefix.drop_last();
        let last = prefix.last();
        let n = prefix.len() - 1;
        lemma_edges_cover(w, rows, preds, stale);
        let before = edges_spec(w, rows, preds, stale);
        let mine = row_edges(last, rows, preds, stale);
        let all = edges_spec(prefix, rows, preds, stale);
        assert(all == before + mine);
        assert(prefix[n] == last);
        assert forall|r: int, k: int| 0 <= r < prefix.len() && 0 <= k < prefix[r].2.len() implies #[trigger] has_edge(
            all,
            dependency_edge(prefix[r], k, rows, preds, stale),
        ) by {
            if r < n {
                assert(w[r] == prefix[r]);
                assert(has_edge(before, dependency_edge(w[r], k, rows, preds, stale)));
                let i = choose|i: int| 0 <= i < before.len() && before[i] == dependency_edge(w[r], k, rows, preds, stale);
                assert(all[i] == before[i]);
            } else {
                let i = before.len() + k;
                assert(all[i] == mine[k]);
                assert(mine[k] == dependency_edge(last, k, rows, preds, stale));
            }
        }
        assert forall|i: int| 0 <= i < all.len() implies #[trigger] drawn_for(prefix, all[i], rows, preds, stale) by {
            if i < before.len() {
                assert(all[i] == before[i]);
                assert(drawn_for(w, before[i], rows, preds, stale));
                let (r, k) = choose|r: int, k: int| 0 <= r < w.len() && 0 <= k < w[r].2.len() && before[i] == dependency_edge(w[r], k, rows, preds, stale);
                assert(w[r] == prefix[r]);
            } else {
                let k = i - before.len();
                assert(all[i] == mine[k]);
                assert(mine[k] == dependency_edge(prefix[n], k, rows, preds, stale));
            }
        }
    }
}

} // verus!
