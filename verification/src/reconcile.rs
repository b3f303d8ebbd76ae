//! When a project read reconciles the project's projection: at most once
//! in thirty seconds per project, counting both reads that reserved a
//! reconciliation and full refreshes that completed.
use crate::text::text_eq;
use vstd::prelude::*;

verus! {

/// How long a reconciliation stays fresh, in nanoseconds of the monotonic
/// clock.
pub const RECONCILE_WINDOW: u64 = 30_000_000_000;

/// When each project was last reconciled or reserved for reconciliation.
pub struct ReconcileSchedule {
    checked: Vec<(String, u64)>,
}

pub open spec fn schedule_map(v: Seq<(String, u64)>) -> Map<Seq<char>, u64>
    decreases v.len(),
{
    if v.len() == 0 {
        Map::empty()
    } else {
        schedule_map(v.drop_last()).insert(v.last().0@, v.last().1)
    }
}

/// Whether a project checked at these times is due at `now`: never
/// checked, or checked at least the window ago. A clock reading before the
/// recorded time counts as no time elapsed.
pub open spec fn due_spec(checked: Map<Seq<char>, u64>, id: Seq<char>, now: u64) -> bool {
    !checked.contains_key(id) || (now >= checked[id] && now - checked[id] >= RECONCILE_WINDOW)
}

fn lookup(v: &Vec<(String, u64)>, id: &str) -> (res: Option<u64>)
    ensures
        match res {
            Some(t) => schedule_map(v@).contains_key(id@) && schedule_map(v@)[id@] == t,
            None => !schedule_map(v@).contains_key(id@),
        },
{
    let mut found: Option<u64> = None;
    let mut i: usize = 0;
    while i < v.len()
        invariant
            i <= v@.len(),
            match found {
                Some(t) => schedule_map(v@.take(i as int)).contains_key(id@) && schedule_map(v@.take(i as int))[id@] == t,
                None => !schedule_map(v@.take(i as int)).contains_key(id@),
            },
        decreases v@.len() - i,
    {
        proof {
            let t = v@.take(i + 1);
            assert(t.drop_last() =~= v@.take(i as int));
            assert(t.last() == v@[i as int]);
        }
        if text_eq(v[i].0.as_str(), id) {
            found = Some(v[i].1);
        }
        i = i + 1;
    }
    assert(v@.take(i as int) =~= v@);
    found
}

fn record(v: &Vec<(String, u64)>, id: &str, now: u64) -> (res: Vec<(String, u64)>)
    ensures
        schedule_map(res@) == schedule_map(v@).insert(id@, now),
{
    let mut out: Vec<(String, u64)> = Vec::new();
    let mut i: usize = 0;
    proof {
        assert(schedule_map(out@) =~= schedule_map(v@.take(0)).remove(id@));
    }
    while i < v.len()
        invariant
            i <= v@.len(),
            schedule_map(out@) == schedule_map(v@.take(i as int)).remove(id@),
        decreases v@.len() - i,
    {
        proof {
            let t = v@.take(i + 1);
            assert(t.drop_last() =~= v@.take(i as int));
            assert(t.last() == v@[i as int]);
        }
        if !text_eq(v[i].0.as_str(), id) {
            let ghost prev = out@;
            out.push((v[i].0.clone(), v[i].1));
            proof {
                assert(out@.drop_last() =~= prev);
                assert(schedule_map(out@) =~= schedule_map(v@.take(i + 1)).remove(id@));
            }
        } else {
            assert(schedule_map(v@.take(i + 1)).remove(id@) =~= schedule_map(v@.take(i as int)).remove(id@));
        }
        i = i + 1;
    }
    assert(v@.take(i as int) =~= v@);
    let ghost prev = out@;
    out.push((id.to_owned(), now));
    proof {
        assert(out@.drop_last() =~= prev);
        assert(schedule_map(out@) =~= schedule_map(v@).insert(id@, now));
    }
    out
}

impl ReconcileSchedule {
    pub closed spec fn checked_at(self) -> Map<Seq<char>, u64> {
        schedule_map(self.checked@)
    }

    pub fn new() -> (res: ReconcileSchedule)
        ensures
            res.checked_at() == Map::<Seq<char>, u64>::empty(),
    {
        ReconcileSchedule { checked: Vec::new() }
    }

    /// Whether a read at `now` reconciles the project; a due project is
    /// reserved at once, so concurrent reads do not all reconcile it.
    pub fn reserve_if_due(&mut self, id: &str, now: u64) -> (res: bool)
        ensures
            res == due_spec(old(self).checked_at(), id@, now),
            res ==> final(self).checked_at() == old(self).checked_at().insert(id@, now),
            !res ==> final(self).checked_at() == old(self).checked_at(),
    {
        let due = match lookup(&self.checked, id) {
            None => true,
            Some(t) => now >= t && now - t >= RECONCILE_WINDOW,
        };
        if due {
            self.checked = record(&self.checked, id, now);
        }
        due
    }

    /// Notes a completed full refresh of the project at `now`.
    pub fn completed(&mut self, id: &str, now: u64)
        ensures
            final(self).checked_at() == old(self).checked_at().insert(id@, now),
    {
        self.checked = record(&self.checked, id, now);
    }
}

/// A project reserved at one moment is not due again within the window:
/// reads in quick succession reconcile it once.
pub proof fn lemma_reserved_not_due(checked: Map<Seq<char>, u64>, id: Seq<char>, at: u64, now: u64)
    requires
        at <= now,
        now - at < RECONCILE_WINDOW,
    ensures
        !due_spec(checked.insert(id, at), id, now),
{
}

/// Other projects' schedules are untouched by a reservation.
pub proof fn lemma_reservation_is_per_project(checked: Map<Seq<char>, u64>, id: Seq<char>, other: Seq<char>, at: u64, now: u64)
    requires
        id != other,
    ensures
        due_spec(checked.insert(id, at), other, now) == due_spec(checked, other, now),
{
}

} // verus!
