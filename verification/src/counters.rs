//! Counters on a card: configuring one keeps its dated values, and a value
//! is recorded by date on a counter that is not archived.
use crate::ids::canonical_uuid_spec;
use crate::mutation::{fresh_id, no_randomness};
use crate::reply::{is_rejection, AppError};
use crate::text::text_eq;
use vstd::prelude::*;

verus! {

/// A counter, its settings held as the JSON text of each value.
pub struct Counter {
    pub id: String,
    pub name: String,
    pub unit: String,
    pub step: String,
    pub archived: bool,
    /// Recorded values by date, each date once.
    pub values: Vec<(String, String)>,
}

/// New settings for an existing counter.
pub struct CounterSettings {
    pub name: String,
    pub unit: String,
    pub step: String,
    pub archived: bool,
}

pub open spec fn values_view(v: Seq<(String, String)>) -> Seq<(Seq<char>, Seq<char>)> {
    v.map_values(|p: (String, String)| (p.0@, p.1@))
}

fn find_counter(counters: &Vec<Counter>, id: &str) -> (res: Result<usize, AppError>)
    ensures
        match res {
            Ok(i) => i < counters@.len() && counters@[i as int].id@ == id@
                && forall|j: int| 0 <= j < i ==> (#[trigger] counters@[j]).id@ != id@,
            Err(e) => is_rejection(e, 422, "COUNTER_NOT_FOUND"@) && forall|j: int| 0 <= j < counters@.len() ==> (#[trigger] counters@[j]).id@ != id@,
        },
{
    let mut i: usize = 0;
    while i < counters.len()
        invariant
            i <= counters.len(),
            forall|j: int| 0 <= j < i ==> (#[trigger] counters@[j]).id@ != id@,
        decreases counters.len() - i,
    {
        if text_eq(counters[i].id.as_str(), id) {
            return Ok(i);
        }
        i = i + 1;
    }
    Err(AppError::reject(422, "COUNTER_NOT_FOUND"))
}

fn copy_values(v: &Vec<(String, String)>) -> (res: Vec<(String, String)>)
    ensures
        values_view(res@) == values_view(v@),
{
    let mut out: Vec<(String, String)> = Vec::new();
    let mut i: usize = 0;
    while i < v.len()
        invariant
            i <= v.len(),
            values_view(out@) == values_view(v@.take(i as int)),
        decreases v.len() - i,
    {
        let ghost before = values_view(out@);
        out.push((v[i].0.clone(), v[i].1.clone()));
        assert(values_view(out@) =~= before.push((v@[i as int].0@, v@[i as int].1@)));
        assert(values_view(v@.take(i + 1)) =~= values_view(v@.take(i as int)).push((v@[i as int].0@, v@[i as int].1@)));
        i = i + 1;
    }
    assert(v@.take(i as int) =~= v@);
    out
}

/// Reconfigures the first counter with `id`. A counter with recorded values
/// cannot change its unit (`422 COUNTER_UNIT_HAS_HISTORY`); an unknown ID is
/// `422 COUNTER_NOT_FOUND`. Its values and the other counters stay.
pub fn configure(counters: &mut Vec<Counter>, id: &str, settings: &CounterSettings) -> (res: Result<(), AppError>)
    ensures
        final(counters)@.len() == old(counters)@.len(),
        match res {
            Ok(()) => exists|i: int| 0 <= i < old(counters)@.len() && old(counters)@[i].id@ == id@
                && (forall|j: int| 0 <= j < i ==> (#[trigger] old(counters)@[j]).id@ != id@)
                && (old(counters)@[i].unit@ == settings.unit@ || old(counters)@[i].values@.len() == 0)
                && final(counters)@[i].id@ == id@
                && final(counters)@[i].name@ == settings.name@
                && final(counters)@[i].unit@ == settings.unit@
                && final(counters)@[i].step@ == settings.step@
                && final(counters)@[i].archived == settings.archived
                && values_view(final(counters)@[i].values@) == values_view(old(counters)@[i].values@)
                && forall|j: int| 0 <= j < old(counters)@.len() && j != i ==> #[trigger] final(counters)@[j] == old(counters)@[j],
            Err(e) => final(counters)@ == old(counters)@ && (
                (is_rejection(e, 422, "COUNTER_NOT_FOUND"@) && forall|j: int| 0 <= j < old(counters)@.len() ==> (#[trigger] old(counters)@[j]).id@ != id@)
                || (is_rejection(e, 422, "COUNTER_UNIT_HAS_HISTORY"@) && exists|i: int| 0 <= i < old(counters)@.len() && old(counters)@[i].id@ == id@
                    && (forall|j: int| 0 <= j < i ==> (#[trigger] old(counters)@[j]).id@ != id@)
                    && old(counters)@[i].unit@ != settings.unit@ && old(counters)@[i].values@.len() > 0)),
        },
{
    let i = match find_counter(counters, id) {
        Ok(i) => i,
        Err(e) => return Err(e),
    };
    if !text_eq(counters[i].unit.as_str(), settings.unit.as_str()) && counters[i].values.len() > 0 {
        return Err(AppError::reject(422, "COUNTER_UNIT_HAS_HISTORY"));
    }
    let ghost before = counters@;
    let updated = Counter {
        id: counters[i].id.clone(),
        name: settings.name.clone(),
        unit: settings.unit.clone(),
        step: settings.step.clone(),
        archived: settings.archived,
        values: copy_values(&counters[i].values),
    };
    counters.set(i, updated);
    assert(forall|j: int| 0 <= j < before.len() && j != i ==> #[trigger] counters@[j] == before[j]);
    assert(before[i as int].id@ == id@);
    assert(counters@[i as int].id@ == id@);
    assert(counters@[i as int].unit@ == settings.unit@);
    assert(values_view(counters@[i as int].values@) == values_view(before[i as int].values@));
    assert(before[i as int].unit@ == settings.unit@ || before[i as int].values@.len() == 0);
    Ok(())
}

/// The dated values after recording `value` on `date`: the date's value is
/// replaced where it exists, and added at the end otherwise.
pub open spec fn record_spec(values: Seq<(Seq<char>, Seq<char>)>, date: Seq<char>, value: Seq<char>) -> Seq<(Seq<char>, Seq<char>)> {
    if exists|i: int| 0 <= i < values.len() && values[i].0 == date {
        values.map_values(|p: (Seq<char>, Seq<char>)| if p.0 == date { (date, value) } else { p })
    } else {
        values.push((date, value))
    }
}

/// Records a value for a date on the first counter with `id`. An unknown
/// ID is `422 COUNTER_NOT_FOUND`, an archived counter `422
/// COUNTER_ARCHIVED`, and a date that is not a calendar date `422
/// INVALID_COUNTER_DATE`.
pub fn record(counters: &mut Vec<Counter>, id: &str, date: &str, date_valid: bool, value: &str) -> (res: Result<(), AppError>)
    ensures
        final(counters)@.len() == old(counters)@.len(),
        match res {
            Ok(()) => exists|i: int| 0 <= i < old(counters)@.len() && old(counters)@[i].id@ == id@
                && (forall|j: int| 0 <= j < i ==> (#[trigger] old(counters)@[j]).id@ != id@)
                && !old(counters)@[i].archived && date_valid
                && values_view(final(counters)@[i].values@) == record_spec(values_view(old(counters)@[i].values@), date@, value@)
                && final(counters)@[i].id@ == old(counters)@[i].id@
                && final(counters)@[i].unit@ == old(counters)@[i].unit@
                && forall|j: int| 0 <= j < old(counters)@.len() && j != i ==> #[trigger] final(counters)@[j] == old(counters)@[j],
            Err(e) => final(counters)@ == old(counters)@ && (
                (is_rejection(e, 422, "COUNTER_NOT_FOUND"@) && forall|j: int| 0 <= j < old(counters)@.len() ==> (#[trigger] old(counters)@[j]).id@ != id@)
                || (exists|i: int| 0 <= i < old(counters)@.len() && old(counters)@[i].id@ == id@
                    && (forall|j: int| 0 <= j < i ==> (#[trigger] old(counters)@[j]).id@ != id@)
                    && if old(counters)@[i].archived {
                        is_rejection(e, 422, "COUNTER_ARCHIVED"@)
                    } else {
                        !date_valid && is_rejection(e, 422, "INVALID_COUNTER_DATE"@)
                    })),
        },
{
    let i = match find_counter(counters, id) {
        Ok(i) => i,
        Err(e) => return Err(e),
    };
    if counters[i].archived {
        return Err(AppError::reject(422, "COUNTER_ARCHIVED"));
    }
    if !date_valid {
        return Err(AppError::reject(422, "INVALID_COUNTER_DATE"));
    }
    let ghost before = counters@;
    let ghost old_values = values_view(counters@[i as int].values@);
    let mut values = copy_values(&counters[i].values);
    let mut k: usize = 0;
    let mut found = false;
    while k < values.len()
        invariant
            k <= values.len(),
            values@.len() == old_values.len(),
            found == exists|m: int| 0 <= m < k && old_values[m].0 == date@,
            forall|m: int| 0 <= m < k ==> #[trigger] values_view(values@)[m] == (if old_values[m].0 == date@ {
                (date@, value@)
            } else {
                old_values[m]
            }),
            forall|m: int| k <= m < values@.len() ==> #[trigger] values_view(values@)[m] == old_values[m],
        decreases values.len() - k,
    {
        assert(values_view(values@)[k as int] == old_values[k as int]);
        let ghost prev = values@;
        if text_eq(values[k].0.as_str(), date) {
            values.set(k, (date.to_owned(), value.to_owned()));
            found = true;
        }
        proof {
            assert forall|m: int| 0 <= m < k + 1 implies #[trigger] values_view(values@)[m] == (if old_values[m].0 == date@ {
                (date@, value@)
            } else {
                old_values[m]
            }) by {
                if m < k {
                    assert(values@[m] == prev[m]);
                    assert(values_view(prev)[m] == values_view(values@)[m]);
                }
            }
            assert forall|m: int| k + 1 <= m < values@.len() implies #[trigger] values_view(values@)[m] == old_values[m] by {
                assert(values@[m] == prev[m]);
                assert(values_view(prev)[m] == values_view(values@)[m]);
            }
        }
        k = k + 1;
    }
    if !found {
        let ghost prev = values_view(values@);
        values.push((date.to_owned(), value.to_owned()));
        proof {
            assert(prev =~= old_values);
            assert(values_view(values@) =~= old_values.push((date@, value@)));
        }
    } else {
        assert(values_view(values@) =~= old_values.map_values(|p: (Seq<char>, Seq<char>)| if p.0 == date@ { (date@, value@) } else { p }));
    }
    let updated = Counter {
        id: counters[i].id.clone(),
        name: counters[i].name.clone(),
        unit: counters[i].unit.clone(),
        step: counters[i].step.clone(),
        archived: counters[i].archived,
        values,
    };
    counters.set(i, updated);
    assert(forall|j: int| 0 <= j < before.len() && j != i ==> #[trigger] counters@[j] == before[j]);
    Ok(())
}

/// Adds a counter with these settings under a fresh version 4 ID and no
/// recorded values; returns its position. The ID needs the system's
/// randomness: without it the counters stay as they were.
pub fn add_counter(counters: &mut Vec<Counter>, settings: &CounterSettings) -> (res: Result<usize, AppError>)
    ensures
        res matches Err(e) ==> no_randomness(e) && final(counters)@ == old(counters)@,
        res matches Ok(n) ==> {
            &&& n == old(counters)@.len()
            &&& final(counters)@.len() == old(counters)@.len() + 1
            &&& forall|j: int| 0 <= j < old(counters)@.len() ==> #[trigger] final(counters)@[j] == old(counters)@[j]
            &&& canonical_uuid_spec(final(counters)@[n as int].id@, 4)
            &&& final(counters)@[n as int].name@ == settings.name@
            &&& final(counters)@[n as int].unit@ == settings.unit@
            &&& final(counters)@[n as int].step@ == settings.step@
            &&& final(counters)@[n as int].archived == settings.archived
            &&& final(counters)@[n as int].values@.len() == 0
        },
{
    let id = match fresh_id() {
        Ok(id) => id,
        Err(e) => return Err(e),
    };
    let n = counters.len();
    counters.push(Counter {
        id,
        name: settings.name.clone(),
        unit: settings.unit.clone(),
        step: settings.step.clone(),
        archived: settings.archived,
        values: Vec::new(),
    });
    Ok(n)
}

} // verus!
