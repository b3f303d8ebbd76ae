//! Deferred projection repairs after a durable maintenance job. One entry per
//! project, kept in project order; a repair whose scan is running is reserved
//! (it has no due time) and is never handed out twice.
use crate::text::{lemma_text_lt_irreflexive, lemma_text_lt_total, lemma_text_lt_transitive, text_eq, text_less, text_lt};
use vstd::prelude::*;

verus! {

/// How long a failed repair waits before its next attempt, in nanoseconds.
pub const RETRY_DELAY: u64 = 30_000_000_000;

/// The most repairs that one call hands out.
pub const RETRY_BATCH: usize = 16;

pub struct PendingRepair {
    pub project: String,
    pub request_id: String,
    /// `None` reserves the repair while its scan runs.
    pub due: Option<u64>,
}

/// One pending repair: project, request ID, due time.
pub type RepairView = (Seq<char>, Seq<char>, Option<u64>);

pub struct ProjectionRepairs {
    pending: Vec<PendingRepair>,
}

pub open spec fn repair_view(e: PendingRepair) -> RepairView {
    (e.project@, e.request_id@, e.due)
}

/// Entries are in strictly increasing project order, as a map keyed by
/// project keeps them.
pub open spec fn sorted_by_project(s: Seq<RepairView>) -> bool {
    forall|i: int, j: int| 0 <= i < j < s.len() ==> text_lt(#[trigger] s[i].0, #[trigger] s[j].0)
}

/// The request and due time pending for a project, if any.
pub open spec fn pending_entry(s: Seq<RepairView>, project: Seq<char>) -> Option<(Seq<char>, Option<u64>)> {
    if exists|i: int| 0 <= i < s.len() && s[i].0 == project {
        let i = choose|i: int| 0 <= i < s.len() && s[i].0 == project;
        Some((s[i].1, s[i].2))
    } else {
        None
    }
}

pub open spec fn is_due(e: RepairView, now: u64) -> bool {
    e.2 matches Some(due) && due <= now
}

/// Walking the entries in project order, hands out each due entry while the
/// budget lasts and reserves it; returns what was handed out and the entries
/// afterwards.
pub open spec fn take_due(s: Seq<RepairView>, now: u64, budget: nat) -> (
    Seq<(Seq<char>, Seq<char>)>,
    Seq<RepairView>,
)
    decreases s.len(),
{
    if s.len() == 0 {
        (seq![], seq![])
    } else {
        let e = s[0];
        if is_due(e, now) && budget > 0 {
            let rest = take_due(s.drop_first(), now, (budget - 1) as nat);
            (seq![(e.0, e.1)] + rest.0, seq![(e.0, e.1, None::<u64>)] + rest.1)
        } else {
            let rest = take_due(s.drop_first(), now, budget);
            (rest.0, seq![e] + rest.1)
        }
    }
}

proof fn lemma_entry_at(s: Seq<RepairView>, idx: int)
    requires
        sorted_by_project(s),
        0 <= idx < s.len(),
    ensures
        pending_entry(s, s[idx].0) == Some((s[idx].1, s[idx].2)),
{
    let project = s[idx].0;
    assert(0 <= idx < s.len() && s[idx].0 == project);
    assert forall|c: int| 0 <= c < s.len() && #[trigger] s[c].0 == project implies c == idx by {
        if c < idx {
            assert(text_lt(s[c].0, s[idx].0));
            lemma_text_lt_irreflexive(project);
        } else if c > idx {
            assert(text_lt(s[idx].0, s[c].0));
            lemma_text_lt_irreflexive(project);
        }
    }
}

proof fn lemma_entry_absent(s: Seq<RepairView>, k: Seq<char>)
    requires
        forall|i: int| 0 <= i < s.len() ==> s[i].0 != k,
    ensures
        pending_entry(s, k) is None,
{
}

proof fn lemma_take_due_shape(s: Seq<RepairView>, now: u64, budget: nat)
    ensures
        take_due(s, now, budget).1.len() == s.len(),
        forall|i: int| 0 <= i < s.len() ==> (#[trigger] take_due(s, now, budget).1[i]).0 == s[i].0
            && take_due(s, now, budget).1[i].1 == s[i].1,
        take_due(s, now, budget).0.len() <= budget,
    decreases s.len(),
{
    if s.len() > 0 {
        let e = s[0];
        if is_due(e, now) && budget > 0 {
            lemma_take_due_shape(s.drop_first(), now, (budget - 1) as nat);
        } else {
            lemma_take_due_shape(s.drop_first(), now, budget);
        }
        let t = take_due(s, now, budget).1;
        assert forall|i: int| 0 <= i < s.len() implies (#[trigger] t[i]).0 == s[i].0 && t[i].1
            == s[i].1 by {
            if i > 0 {
                assert(s[i] == s.drop_first()[i - 1]);
            }
        }
    }
}

impl ProjectionRepairs {
    pub closed spec fn view(&self) -> Seq<RepairView> {
        self.pending@.map_values(|e: PendingRepair| repair_view(e))
    }

    pub open spec fn well_formed(&self) -> bool {
        sorted_by_project(self.view())
    }

    pub fn new() -> (res: ProjectionRepairs)
        ensures
            res.well_formed(),
            res.view() == Seq::<RepairView>::empty(),
    {
        let res = ProjectionRepairs { pending: Vec::new() };
        assert(res.view() =~= Seq::<RepairView>::empty());
        res
    }

    /// Reserves a repair for `project` under `request`, replacing any repair
    /// pending for it. A reserved repair is not due until it is finished.
    pub fn start(&mut self, project: &str, request: &str)
        requires
            old(self).well_formed(),
        ensures
            final(self).well_formed(),
            forall|k: Seq<char>|
                pending_entry(final(self).view(), k) == if k == project@ {
                    Some((request@, None::<u64>))
                } else {
                    pending_entry(old(self).view(), k)
                },
    {
        let ghost s0 = self.view();
        let mut p: usize = 0;
        while p < self.pending.len() && text_less(self.pending[p].project.as_str(), project)
            invariant
                p <= self.pending.len(),
                self.view() == s0,
                s0 == self.pending@.map_values(|e: PendingRepair| repair_view(e)),
                sorted_by_project(s0),
                forall|i: int| 0 <= i < p ==> text_lt(#[trigger] s0[i].0, project@),
            decreases self.pending.len() - p,
        {
            p = p + 1;
        }
        let entry = PendingRepair { project: project.to_owned(), request_id: request.to_owned(), due: None };
        if p < self.pending.len() && text_eq(self.pending[p].project.as_str(), project) {
            self.pending.set(p, entry);
            proof {
                let s1 = self.view();
                assert(s1 =~= s0.update(p as int, (project@, request@, None::<u64>)));
                assert(sorted_by_project(s1)) by {
                    assert forall|i: int, j: int| 0 <= i < j < s1.len() implies text_lt(
                        #[trigger] s1[i].0,
                        #[trigger] s1[j].0,
                    ) by {
                        assert(s1[i].0 == s0[i].0);
                        assert(s1[j].0 == s0[j].0);
                    }
                }
                assert forall|k: Seq<char>|
                    pending_entry(s1, k) == if k == project@ {
                        Some((request@, None::<u64>))
                    } else {
                        pending_entry(s0, k)
                    } by {
                    if k == project@ {
                        lemma_entry_at(s1, p as int);
                    } else if exists|i: int| 0 <= i < s0.len() && s0[i].0 == k {
                        let i = choose|i: int| 0 <= i < s0.len() && s0[i].0 == k;
                        lemma_entry_at(s0, i);
                        lemma_entry_at(s1, i);
                    } else {
                        assert forall|i: int| 0 <= i < s1.len() implies s1[i].0 != k by {
                            assert(s1[i].0 == s0[i].0 || i == p);
                        }
                    }
                }
            }
        } else {
            proof {
                if p < s0.len() {
                    lemma_text_lt_total(s0[p as int].0, project@);
                    assert(text_lt(project@, s0[p as int].0));
                }
            }
            self.pending.insert(p, entry);
            proof {
                let s1 = self.view();
                let e = (project@, request@, None::<u64>);
                assert(s1 =~= s0.insert(p as int, e));
                assert forall|j: int| p < j < s1.len() implies text_lt(project@, #[trigger] s1[j].0) by {
                    assert(s1[j] == s0[j - 1]);
                    if j - 1 > p {
                        assert(text_lt(s0[p as int].0, s0[j - 1].0));
                        lemma_text_lt_transitive(project@, s0[p as int].0, s0[j - 1].0);
                    }
                }
                assert(sorted_by_project(s1)) by {
                    assert forall|i: int, j: int| 0 <= i < j < s1.len() implies text_lt(
                        #[trigger] s1[i].0,
                        #[trigger] s1[j].0,
                    ) by {
                        if i < p && j < p {
                            assert(s1[i] == s0[i] && s1[j] == s0[j]);
                        } else if i < p && j == p {
                            assert(s1[i] == s0[i]);
                        } else if i < p && j > p {
                            assert(s1[i] == s0[i]);
                            assert(text_lt(project@, s1[j].0));
                            lemma_text_lt_transitive(s1[i].0, project@, s1[j].0);
                        } else if i == p {
                        } else {
                            assert(s1[i] == s0[i - 1] && s1[j] == s0[j - 1]);
                        }
                    }
                }
                assert forall|k: Seq<char>|
                    pending_entry(s1, k) == if k == project@ {
                        Some((request@, None::<u64>))
                    } else {
                        pending_entry(s0, k)
                    } by {
                    if k == project@ {
                        lemma_entry_at(s1, p as int);
                        assert forall|i: int| 0 <= i < s0.len() implies s0[i].0 != k by {
                            if i < p {
                                assert(text_lt(s0[i].0, project@));
                                lemma_text_lt_irreflexive(project@);
                            } else {
                                assert(s0[i] == s1[i + 1]);
                                assert(text_lt(project@, s1[i + 1].0));
                                lemma_text_lt_irreflexive(project@);
                            }
                        }
                    } else if exists|i: int| 0 <= i < s0.len() && s0[i].0 == k {
                        let i = choose|i: int| 0 <= i < s0.len() && s0[i].0 == k;
                        lemma_entry_at(s0, i);
                        if i < p {
                            assert(s1[i] == s0[i]);
                            lemma_entry_at(s1, i);
                        } else {
                            assert(s1[i + 1] == s0[i]);
                            lemma_entry_at(s1, i + 1);
                        }
                    } else {
                        assert forall|i: int| 0 <= i < s1.len() implies s1[i].0 != k by {
                            if i < p {
                                assert(s1[i] == s0[i]);
                            } else if i > p {
                                assert(s1[i] == s0[i - 1]);
                            }
                        }
                    }
                }
            }
        }
    }

    /// Hands out, in project order, at most `RETRY_BATCH` repairs that are due
    /// at `now`, and reserves each one it hands out.
    pub fn due(&mut self, now: u64) -> (res: Vec<(String, String)>)
        requires
            old(self).well_formed(),
        ensures
            final(self).well_formed(),
            res@.map_values(|p: (String, String)| (p.0@, p.1@)) == take_due(
                old(self).view(),
                now,
                RETRY_BATCH as nat,
            ).0,
            final(self).view() == take_due(old(self).view(), now, RETRY_BATCH as nat).1,
    {
        let ghost s0 = self.view();
        let mut out: Vec<(String, String)> = Vec::new();
        let mut i: usize = 0;
        proof {
            assert(s0.skip(0) =~= s0);
            assert(s0.take(0) =~= Seq::<RepairView>::empty());
        }
        while i < self.pending.len() && out.len() < RETRY_BATCH
            invariant
                i <= self.pending.len(),
                self.pending.len() == s0.len(),
                out.len() <= RETRY_BATCH,
                ({
                    let rest = take_due(s0.skip(i as int), now, (RETRY_BATCH - out.len()) as nat);
                    &&& take_due(s0, now, RETRY_BATCH as nat).0 == out@.map_values(
                        |p: (String, String)| (p.0@, p.1@),
                    ) + rest.0
                    &&& take_due(s0, now, RETRY_BATCH as nat).1 == self.view().take(i as int)
                        + rest.1
                }),
                forall|j: int| i <= j < s0.len() ==> #[trigger] self.view()[j] == s0[j],
            decreases self.pending.len() - i,
        {
            let ghost before = self.view();
            let ghost budget = (RETRY_BATCH - out.len()) as nat;
            let ghost tail = s0.skip(i as int);
            assert(tail[0] == s0[i as int]);
            assert(tail.drop_first() =~= s0.skip(i + 1));
            assert(before[i as int] == repair_view(self.pending[i as int]));
            let is_due_now = match self.pending[i].due {
                Some(due) => due <= now,
                None => false,
            };
            if is_due_now {
                let project = self.pending[i].project.clone();
                let request = self.pending[i].request_id.clone();
                self.pending[i].due = None;
                out.push((project, request));
                proof {
                    let after = self.view();
                    assert(after =~= before.update(i as int, (s0[i as int].0, s0[i as int].1, None::<u64>)));
                    assert(after.take(i + 1) =~= before.take(i as int).push(
                        (s0[i as int].0, s0[i as int].1, None::<u64>),
                    ));
                    let m = out@.map_values(|p: (String, String)| (p.0@, p.1@));
                    let m0 = old_out_view(out@.drop_last());
                    assert(m =~= m0.push((s0[i as int].0, s0[i as int].1)));
                    let r = take_due(s0.skip(i + 1), now, (budget - 1) as nat);
                    assert(seq![(s0[i as int].0, s0[i as int].1)] + r.0 =~= take_due(tail, now, budget).0);
                    assert(m0 + take_due(tail, now, budget).0 =~= m + r.0);
                    assert(before.take(i as int) + take_due(tail, now, budget).1 =~= after.take(i + 1) + r.1);
                }
            } else {
                proof {
                    let after = self.view();
                    assert(after.take(i + 1) =~= before.take(i as int).push(before[i as int]));
                    let r = take_due(s0.skip(i + 1), now, budget);
                    assert(before.take(i as int) + take_due(tail, now, budget).1 =~= after.take(i + 1) + r.1);
                }
            }
            i = i + 1;
        }
        proof {
            let rest = take_due(s0.skip(i as int), now, (RETRY_BATCH - out.len()) as nat);
            if i == self.pending.len() {
                assert(s0.skip(i as int) =~= Seq::<RepairView>::empty());
                assert(self.view().take(i as int) =~= self.view());
            } else {
                lemma_take_due_none_left(s0.skip(i as int), now);
                assert(self.view() =~= self.view().take(i as int) + s0.skip(i as int));
            }
            assert(out@.map_values(|p: (String, String)| (p.0@, p.1@)) + rest.0 =~= out@.map_values(
                |p: (String, String)| (p.0@, p.1@),
            ));
            lemma_take_due_shape(s0, now, RETRY_BATCH as nat);
            let t = self.view();
            assert(sorted_by_project(t)) by {
                assert forall|a: int, b: int| 0 <= a < b < t.len() implies text_lt(
                    #[trigger] t[a].0,
                    #[trigger] t[b].0,
                ) by {
                    assert(t[a].0 == s0[a].0 && t[b].0 == s0[b].0);
                }
            }
        }
        out
    }

    /// Ends a repair attempt: success forgets the project's repair; failure
    /// makes it due again `RETRY_DELAY` after `now`. A project with no pending
    /// repair is left alone.
    pub fn finish(&mut self, project: &str, succeeded: bool, now: u64)
        requires
            old(self).well_formed(),
            now + RETRY_DELAY <= u64::MAX,
        ensures
            final(self).well_formed(),
            forall|k: Seq<char>|
                pending_entry(final(self).view(), k) == if k != project@ {
                    pending_entry(old(self).view(), k)
                } else if succeeded {
                    None
                } else {
                    match pending_entry(old(self).view(), k) {
                        Some(e) => Some((e.0, Some((now + RETRY_DELAY) as u64))),
                        None => None,
                    }
                },
    {
        let ghost s0 = self.view();
        let mut p: usize = 0;
        while p < self.pending.len() && !text_eq(self.pending[p].project.as_str(), project)
            invariant
                p <= self.pending.len(),
                self.view() == s0,
                forall|i: int| 0 <= i < p ==> (#[trigger] s0[i]).0 != project@,
            decreases self.pending.len() - p,
        {
            proof {
                assert(s0[p as int] == repair_view(self.pending[p as int]));
            }
            p = p + 1;
        }
        if p == self.pending.len() {
            proof {
                lemma_entry_absent(s0, project@);
            }
            return;
        }
        proof {
            assert(s0[p as int].0 == project@);
            lemma_entry_at(s0, p as int);
        }
        if succeeded {
            self.pending.remove(p);
            proof {
                let s1 = self.view();
                assert(s1 =~= s0.remove(p as int));
                assert(sorted_by_project(s1)) by {
                    assert forall|i: int, j: int| 0 <= i < j < s1.len() implies text_lt(
                        #[trigger] s1[i].0,
                        #[trigger] s1[j].0,
                    ) by {
                        let a = if i < p { i } else { i + 1 };
                        let b = if j < p { j } else { j + 1 };
                        assert(s1[i] == s0[a] && s1[j] == s0[b]);
                    }
                }
                assert forall|k: Seq<char>|
                    pending_entry(s1, k) == if k != project@ {
                        pending_entry(s0, k)
                    } else {
                        None
                    } by {
                    if k == project@ {
                        assert forall|i: int| 0 <= i < s1.len() implies s1[i].0 != k by {
                            let a = if i < p { i } else { i + 1 };
                            assert(s1[i] == s0[a]);
                            if a < p {
                                assert(text_lt(s0[a].0, s0[p as int].0));
                            } else {
                                assert(text_lt(s0[p as int].0, s0[a].0));
                            }
                            lemma_text_lt_irreflexive(k);
                        }
                    } else if exists|i: int| 0 <= i < s0.len() && s0[i].0 == k {
                        let i = choose|i: int| 0 <= i < s0.len() && s0[i].0 == k;
                        lemma_entry_at(s0, i);
                        let a = if i < p { i } else { i - 1 };
                        assert(i != p);
                        assert(s1[a] == s0[i]);
                        lemma_entry_at(s1, a);
                    } else {
                        assert forall|i: int| 0 <= i < s1.len() implies s1[i].0 != k by {
                            let a = if i < p { i } else { i + 1 };
                            assert(s1[i] == s0[a]);
                        }
                    }
                }
            }
        } else {
            self.pending[p].due = Some(now + RETRY_DELAY);
            proof {
                let s1 = self.view();
                assert(s1 =~= s0.update(p as int, (s0[p as int].0, s0[p as int].1, Some((now + RETRY_DELAY) as u64))));
                assert(sorted_by_project(s1)) by {
                    assert forall|i: int, j: int| 0 <= i < j < s1.len() implies text_lt(
                        #[trigger] s1[i].0,
                        #[trigger] s1[j].0,
                    ) by {
                        assert(s1[i].0 == s0[i].0 && s1[j].0 == s0[j].0);
                    }
                }
                assert forall|k: Seq<char>|
                    pending_entry(s1, k) == if k != project@ {
                        pending_entry(s0, k)
                    } else {
                        match pending_entry(s0, k) {
                            Some(e) => Some((e.0, Some((now + RETRY_DELAY) as u64))),
                            None => None,
                        }
                    } by {
                    if k == project@ {
                        lemma_entry_at(s1, p as int);
                    } else if exists|i: int| 0 <= i < s0.len() && s0[i].0 == k {
                        let i = choose|i: int| 0 <= i < s0.len() && s0[i].0 == k;
                        lemma_entry_at(s0, i);
                        lemma_entry_at(s1, i);
                    } else {
                        assert forall|i: int| 0 <= i < s1.len() implies s1[i].0 != k by {
                            assert(s1[i].0 == s0[i].0);
                        }
                    }
                }
            }
        }
    }
}

pub open spec fn old_out_view(s: Seq<(String, String)>) -> Seq<(Seq<char>, Seq<char>)> {
    s.map_values(|p: (String, String)| (p.0@, p.1@))
}

proof fn lemma_take_due_none_left(s: Seq<RepairView>, now: u64)
    ensures
        take_due(s, now, 0).0 == Seq::<(Seq<char>, Seq<char>)>::empty(),
        take_due(s, now, 0).1 == s,
    decreases s.len(),
{
    if s.len() > 0 {
        lemma_take_due_none_left(s.drop_first(), now);
        assert(s =~= seq![s[0]] + s.drop_first());
    }
}

/// Each batch hands out at most the batch size.
pub proof fn lemma_batch_bounded(s: Seq<RepairView>, now: u64, budget: nat)
    ensures
        take_due(s, now, budget).0.len() <= budget,
{
    lemma_take_due_shape(s, now, budget);
}

proof fn lemma_take_due_items(s: Seq<RepairView>, now: u64, budget: nat)
    ensures
        forall|k: int| 0 <= k < take_due(s, now, budget).0.len() ==> exists|i: int|
            0 <= i < s.len() && is_due(s[i], now) && (#[trigger] take_due(s, now, budget).0[k]) == (s[i].0, s[i].1)
                && take_due(s, now, budget).1[i].2 is None,
    decreases s.len(),
{
    if s.len() > 0 {
        let e = s[0];
        let b1 = if is_due(e, now) && budget > 0 { (budget - 1) as nat } else { budget };
        lemma_take_due_items(s.drop_first(), now, b1);
        lemma_take_due_shape(s.drop_first(), now, b1);
        let out = take_due(s, now, budget);
        let rest = take_due(s.drop_first(), now, b1);
        assert forall|k: int| 0 <= k < out.0.len() implies exists|i: int|
            0 <= i < s.len() && is_due(s[i], now) && (#[trigger] out.0[k]) == (s[i].0, s[i].1) && out.1[i].2 is None by {
            if is_due(e, now) && budget > 0 {
                if k == 0 {
                    assert(out.0[0] == (e.0, e.1));
                    assert(out.1[0].2 is None);
                } else {
                    assert(out.0[k] == rest.0[k - 1]);
                    let i = choose|i: int| 0 <= i < s.drop_first().len() && is_due(s.drop_first()[i], now)
                        && rest.0[k - 1] == (s.drop_first()[i].0, s.drop_first()[i].1) && rest.1[i].2 is None;
                    assert(s[i + 1] == s.drop_first()[i]);
                    assert(out.1[i + 1] == rest.1[i]);
                }
            } else {
                assert(out.0[k] == rest.0[k]);
                let i = choose|i: int| 0 <= i < s.drop_first().len() && is_due(s.drop_first()[i], now)
                    && rest.0[k] == (s.drop_first()[i].0, s.drop_first()[i].1) && rest.1[i].2 is None;
                assert(s[i + 1] == s.drop_first()[i]);
                assert(out.1[i + 1] == rest.1[i]);
            }
        }
    }
}

/// A repair handed out is reserved while its scan runs: every repair a
/// batch hands out was due, and afterwards it has no due time, so no later
/// batch hands it out again until the attempt finishes.
pub proof fn lemma_handed_out_reserved(s: Seq<RepairView>, now: u64, budget: nat, k: int, later: u64)
    requires
        0 <= k < take_due(s, now, budget).0.len(),
    ensures
        exists|i: int| 0 <= i < s.len() && is_due(s[i], now) && take_due(s, now, budget).0[k] == (s[i].0, s[i].1)
            && !is_due(take_due(s, now, budget).1[i], later),
{
    lemma_take_due_items(s, now, budget);
    let i = choose|i: int| 0 <= i < s.len() && is_due(s[i], now) && (#[trigger] take_due(s, now, budget).0[k]) == (s[i].0, s[i].1)
        && take_due(s, now, budget).1[i].2 is None;
    assert(!is_due(take_due(s, now, budget).1[i], later));
}

/// A failed repair backs off: it is not due again before the retry delay
/// has passed since the failure.
pub proof fn lemma_failure_backs_off(entry: Option<(Seq<char>, Option<u64>)>, failed_at: u64, at: u64)
    requires
        entry matches Some(e) && e.1 == Some((failed_at + RETRY_DELAY) as u64),
        failed_at + RETRY_DELAY <= u64::MAX,
        at < failed_at + RETRY_DELAY,
    ensures
        !is_due((Seq::<char>::empty(), entry.unwrap().0, entry.unwrap().1), at),
{
}

impl Default for ProjectionRepairs {
    fn default() -> (res: ProjectionRepairs)
        ensures
            res.well_formed(),
            res.view() == Seq::<RepairView>::empty(),
    {
        ProjectionRepairs::new()
    }
}

} // verus!
