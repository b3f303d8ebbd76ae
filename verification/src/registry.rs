//! The workspace's project registrations. A project is registered at one
//! path, and a path holds one project: registering again is a no-op, and a
//! registration that would pair an ID or a path differently is refused.
use crate::reply::{is_rejection, AppError};
use crate::text::text_eq;
use vstd::prelude::*;

verus! {

pub struct Registration {
    pub project_id: String,
    pub path: String,
    pub added_at: String,
}

/// A focus entry: a card of a registered project.
pub struct FocusRef {
    pub project_id: String,
    pub card_id: String,
}

/// ID, path and registration time.
pub type RegView = (Seq<char>, Seq<char>, Seq<char>);

pub open spec fn reg_view(r: Registration) -> RegView {
    (r.project_id@, r.path@, r.added_at@)
}

pub open spec fn regs(v: Seq<Registration>) -> Seq<RegView> {
    v.map_values(|r: Registration| reg_view(r))
}

/// No two registrations share an ID or a path.
pub open spec fn well_formed(v: Seq<RegView>) -> bool {
    forall|i: int, j: int| 0 <= i < v.len() && 0 <= j < v.len() && i != j
        ==> (#[trigger] v[i]).0 != (#[trigger] v[j]).0 && v[i].1 != v[j].1
}

/// Whether some registration has this ID or this path.
pub open spec fn claims(v: Seq<RegView>, id: Seq<char>, path: Seq<char>) -> bool {
    exists|i: int| 0 <= i < v.len() && ((#[trigger] v[i]).0 == id || v[i].1 == path)
}

/// Whether the registrations pair this ID with exactly this path.
pub open spec fn pairs(v: Seq<RegView>, id: Seq<char>, path: Seq<char>) -> bool {
    exists|i: int| 0 <= i < v.len() && (#[trigger] v[i]).0 == id && v[i].1 == path
}

/// The registrations after registering `id` at `path` at time `at`, or
/// `None` when some registration holds the ID or the path with another
/// partner.
pub open spec fn register_spec(v: Seq<RegView>, id: Seq<char>, path: Seq<char>, at: Seq<char>) -> Option<Seq<RegView>> {
    if !claims(v, id, path) {
        Some(v.push((id, path, at)))
    } else if pairs(v, id, path) && (forall|i: int| 0 <= i < v.len() && (#[trigger] v[i]).0 == id ==> v[i].1 == path)
        && (forall|i: int| 0 <= i < v.len() && (#[trigger] v[i]).1 == path ==> v[i].0 == id) {
        Some(v)
    } else {
        None
    }
}

/// The position of the first registration that has this ID or this path.
fn first_claim(v: &Vec<Registration>, id: &str, path: &str) -> (res: Option<usize>)
    ensures
        match res {
            Some(i) => i < v.len() && (regs(v@)[i as int].0 == id@ || regs(v@)[i as int].1 == path@)
                && forall|j: int| 0 <= j < i ==> !(regs(v@)[j].0 == id@ || regs(v@)[j].1 == path@),
            None => !claims(regs(v@), id@, path@),
        },
{
    let ghost rv = regs(v@);
    let mut i: usize = 0;
    while i < v.len()
        invariant
            i <= v.len(),
            rv == regs(v@),
            forall|j: int| 0 <= j < i ==> !((#[trigger] rv[j]).0 == id@ || rv[j].1 == path@),
        decreases v.len() - i,
    {
        if text_eq(v[i].project_id.as_str(), id) || text_eq(v[i].path.as_str(), path) {
            return Some(i);
        }
        i = i + 1;
    }
    None
}

/// Registers project `id` at `path`, recording `added_at`. Registering a
/// pair that is already registered changes nothing; a pair that conflicts
/// with a registration is `409 REGISTRATION_ID_PATH_CONFLICT`.
pub fn register(projects: &mut Vec<Registration>, id: &str, path: &str, added_at: &str) -> (res: Result<(), AppError>)
    requires
        well_formed(regs(old(projects)@)),
    ensures
        match register_spec(regs(old(projects)@), id@, path@, added_at@) {
            Some(after) => res is Ok && regs(final(projects)@) == after,
            None => (res matches Err(e) && is_rejection(e, 409, "REGISTRATION_ID_PATH_CONFLICT"@))
                && regs(final(projects)@) == regs(old(projects)@),
        },
{
    let ghost before = regs(projects@);
    match first_claim(projects, id, path) {
        None => {
            projects.push(Registration { project_id: id.to_owned(), path: path.to_owned(), added_at: added_at.to_owned() });
            assert(regs(projects@) =~= before.push((id@, path@, added_at@)));
            Ok(())
        },
        Some(i) => {
            let same = text_eq(projects[i].project_id.as_str(), id) && text_eq(projects[i].path.as_str(), path);
            proof {
                assert(claims(before, id@, path@)) by {
                    assert(before[i as int].0 == id@ || before[i as int].1 == path@);
                }
                if same {
                    assert(pairs(before, id@, path@)) by {
                        assert(before[i as int].0 == id@ && before[i as int].1 == path@);
                    }
                    assert forall|k: int| 0 <= k < before.len() && (#[trigger] before[k]).0 == id@ implies before[k].1 == path@ by {
                        if k != i {
                            assert(before[k].0 != before[i as int].0);
                        }
                    }
                    assert forall|k: int| 0 <= k < before.len() && (#[trigger] before[k]).1 == path@ implies before[k].0 == id@ by {
                        if k != i {
                            assert(before[k].1 != before[i as int].1);
                        }
                    }
                } else {
                    if pairs(before, id@, path@) {
                        let k = choose|k: int| 0 <= k < before.len() && (#[trigger] before[k]).0 == id@ && before[k].1 == path@;
                        if before[i as int].0 == id@ {
                            assert(before[i as int].1 != path@);
                        } else {
                            assert(before[i as int].1 == path@ && before[i as int].0 != id@);
                        }
                    }
                }
            }
            if same {
                Ok(())
            } else {
                Err(AppError::reject(409, "REGISTRATION_ID_PATH_CONFLICT"))
            }
        },
    }
}

/// Registering keeps the registrations well formed.
pub proof fn lemma_register_keeps_well_formed(v: Seq<RegView>, id: Seq<char>, path: Seq<char>, at: Seq<char>)
    requires
        well_formed(v),
    ensures
        register_spec(v, id, path, at) matches Some(after) ==> well_formed(after),
{
    if !claims(v, id, path) {
        let after = v.push((id, path, at));
        assert forall|i: int, j: int| 0 <= i < after.len() && 0 <= j < after.len() && i != j
            implies (#[trigger] after[i]).0 != (#[trigger] after[j]).0 && after[i].1 != after[j].1 by {
            if i < v.len() && j < v.len() {
                assert(after[i] == v[i] && after[j] == v[j]);
            } else if i < v.len() {
                assert(after[i] == v[i]);
                assert(!(v[i].0 == id || v[i].1 == path));
            } else {
                assert(after[j] == v[j]);
                assert(!(v[j].0 == id || v[j].1 == path));
            }
        }
    }
}

/// Registering a pair a second time changes nothing.
pub proof fn lemma_register_idempotent(v: Seq<RegView>, id: Seq<char>, path: Seq<char>, at: Seq<char>, later: Seq<char>)
    requires
        well_formed(v),
        register_spec(v, id, path, at) is Some,
    ensures
        register_spec(register_spec(v, id, path, at)->0, id, path, later) == register_spec(v, id, path, at),
{
    let after = register_spec(v, id, path, at)->0;
    lemma_register_keeps_well_formed(v, id, path, at);
    if !claims(v, id, path) {
        let n = v.len() as int;
        assert(after[n] == (id, path, at));
        assert(claims(after, id, path));
        assert(pairs(after, id, path));
        assert forall|i: int| 0 <= i < after.len() && (#[trigger] after[i]).0 == id implies after[i].1 == path by {
            if i < n {
                assert(after[i] == v[i]);
            }
        }
        assert forall|i: int| 0 <= i < after.len() && (#[trigger] after[i]).1 == path implies after[i].0 == id by {
            if i < n {
                assert(after[i] == v[i]);
            }
        }
    } else {
        let k = choose|k: int| 0 <= k < v.len() && (#[trigger] v[k]).0 == id && v[k].1 == path;
        assert(claims(v, id, path)) by {
            assert(v[k].0 == id);
        }
    }
}

/// The registrations without project `id`, in their order.
pub open spec fn without(v: Seq<RegView>, id: Seq<char>) -> Seq<RegView>
    decreases v.len(),
{
    if v.len() == 0 {
        v
    } else if v.last().0 != id {
        without(v.drop_last(), id).push(v.last())
    } else {
        without(v.drop_last(), id)
    }
}

/// Removes project `id`'s registration; every other registration stays, in
/// order.
pub fn unregister(projects: &mut Vec<Registration>, id: &str)
    ensures
        regs(final(projects)@) == without(regs(old(projects)@), id@),
{
    let ghost before = regs(projects@);
    let mut kept: Vec<Registration> = Vec::new();
    let mut i: usize = 0;
    proof {
        assert(before.take(0) =~= Seq::<RegView>::empty());
    }
    while i < projects.len()
        invariant
            i <= projects.len(),
            before == regs(projects@),
            regs(kept@) == without(before.take(i as int), id@),
        decreases projects.len() - i,
    {
        let ghost k0 = regs(kept@);
        assert(before.take(i + 1).drop_last() =~= before.take(i as int));
        assert(before.take(i + 1).last() == reg_view(projects@[i as int]));
        if !text_eq(projects[i].project_id.as_str(), id) {
            let r = Registration {
                project_id: projects[i].project_id.clone(),
                path: projects[i].path.clone(),
                added_at: projects[i].added_at.clone(),
            };
            kept.push(r);
            assert(regs(kept@) =~= k0.push(before[i as int]));
        } else {
            assert(regs(kept@) =~= k0);
        }
        i = i + 1;
    }
    assert(before.take(i as int) =~= before);
    *projects = kept;
}

pub open spec fn focus_view(f: FocusRef) -> (Seq<char>, Seq<char>) {
    (f.project_id@, f.card_id@)
}

/// The focus entries of projects other than `id`, in their order.
pub open spec fn focus_without(v: Seq<(Seq<char>, Seq<char>)>, id: Seq<char>) -> Seq<(Seq<char>, Seq<char>)>
    decreases v.len(),
{
    if v.len() == 0 {
        v
    } else if v.last().0 != id {
        focus_without(v.drop_last(), id).push(v.last())
    } else {
        focus_without(v.drop_last(), id)
    }
}

/// Removes every focus entry of project `id`; the others stay, in order.
pub fn drop_focus(focus: &mut Vec<FocusRef>, id: &str)
    ensures
        final(focus)@.map_values(|f: FocusRef| focus_view(f)) == focus_without(old(focus)@.map_values(|f: FocusRef| focus_view(f)), id@),
{
    let ghost before = focus@.map_values(|f: FocusRef| focus_view(f));
    let mut kept: Vec<FocusRef> = Vec::new();
    let mut i: usize = 0;
    proof {
        assert(before.take(0) =~= Seq::<(Seq<char>, Seq<char>)>::empty());
    }
    while i < focus.len()
        invariant
            i <= focus.len(),
            before == focus@.map_values(|f: FocusRef| focus_view(f)),
            kept@.map_values(|f: FocusRef| focus_view(f)) == focus_without(before.take(i as int), id@),
        decreases focus.len() - i,
    {
        let ghost k0 = kept@.map_values(|f: FocusRef| focus_view(f));
        assert(before.take(i + 1).drop_last() =~= before.take(i as int));
        assert(before.take(i + 1).last() == focus_view(focus@[i as int]));
        if !text_eq(focus[i].project_id.as_str(), id) {
            let f = FocusRef { project_id: focus[i].project_id.clone(), card_id: focus[i].card_id.clone() };
            kept.push(f);
            assert(kept@.map_values(|f: FocusRef| focus_view(f)) =~= k0.push(before[i as int]));
        } else {
            assert(kept@.map_values(|f: FocusRef| focus_view(f)) =~= k0);
        }
        i = i + 1;
    }
    assert(before.take(i as int) =~= before);
    *focus = kept;
}

/// The position of project `id`'s registration; an unregistered project is
/// `404 PROJECT_NOT_REGISTERED`.
pub fn find_registration(projects: &Vec<Registration>, id: &str) -> (res: Result<usize, AppError>)
    ensures
        match res {
            Ok(i) => i < projects.len() && regs(projects@)[i as int].0 == id@,
            Err(e) => is_rejection(e, 404, "PROJECT_NOT_REGISTERED"@)
                && forall|j: int| 0 <= j < projects.len() ==> (#[trigger] regs(projects@)[j]).0 != id@,
        },
{
    let ghost rv = regs(projects@);
    let mut i: usize = 0;
    while i < projects.len()
        invariant
            i <= projects.len(),
            rv == regs(projects@),
            forall|j: int| 0 <= j < i ==> (#[trigger] rv[j]).0 != id@,
        decreases projects.len() - i,
    {
        if text_eq(projects[i].project_id.as_str(), id) {
            return Ok(i);
        }
        i = i + 1;
    }
    Err(AppError::reject(404, "PROJECT_NOT_REGISTERED"))
}

/// Moves project `id` to `new_path`. A path that some project is registered
/// at already is `409 PATH_ALREADY_REGISTERED`, and an unregistered project
/// is `404 PROJECT_NOT_REGISTERED`; either way nothing changes.
pub fn relocate(projects: &mut Vec<Registration>, id: &str, new_path: &str) -> (res: Result<(), AppError>)
    ensures
        ({
            let before = regs(old(projects)@);
            if exists|j: int| 0 <= j < before.len() && (#[trigger] before[j]).0 == id@ {
                if exists|j: int| 0 <= j < before.len() && (#[trigger] before[j]).1 == new_path@ {
                    (res matches Err(e) && is_rejection(e, 409, "PATH_ALREADY_REGISTERED"@)) && regs(final(projects)@) == before
                } else {
                    res is Ok && regs(final(projects)@) == before.map_values(
                        |r: RegView| if r.0 == id@ { (r.0, new_path@, r.2) } else { r },
                    )
                }
            } else {
                (res matches Err(e) && is_rejection(e, 404, "PROJECT_NOT_REGISTERED"@)) && regs(final(projects)@) == before
            }
        }),
{
    let ghost before = regs(projects@);
    let found = find_registration(projects, id);
    match found {
        Err(_) => {
            return Err(AppError::reject(404, "PROJECT_NOT_REGISTERED"));
        },
        Ok(f) => {
            assert(before[f as int].0 == id@);
        },
    }
    let mut k: usize = 0;
    while k < projects.len()
        invariant
            k <= projects.len(),
            before == regs(projects@),
            exists|j: int| 0 <= j < before.len() && (#[trigger] before[j]).0 == id@,
            forall|j: int| 0 <= j < k ==> (#[trigger] before[j]).1 != new_path@,
        decreases projects.len() - k,
    {
        if text_eq(projects[k].path.as_str(), new_path) {
            assert(before[k as int].1 == new_path@);
            return Err(AppError::reject(409, "PATH_ALREADY_REGISTERED"));
        }
        k = k + 1;
    }
    let ghost target = before.map_values(|r: RegView| if r.0 == id@ { (r.0, new_path@, r.2) } else { r });
    let mut i: usize = 0;
    while i < projects.len()
        invariant
            i <= projects.len(),
            projects@.len() == before.len(),
            target == before.map_values(|r: RegView| if r.0 == id@ { (r.0, new_path@, r.2) } else { r }),
            forall|j: int| 0 <= j < i ==> #[trigger] regs(projects@)[j] == target[j],
            forall|j: int| i <= j < before.len() ==> #[trigger] regs(projects@)[j] == before[j],
        decreases projects.len() - i,
    {
        let ghost prev = projects@;
        assert(regs(prev)[i as int] == before[i as int]);
        if text_eq(projects[i].project_id.as_str(), id) {
            let r = Registration {
                project_id: projects[i].project_id.clone(),
                path: new_path.to_owned(),
                added_at: projects[i].added_at.clone(),
            };
            projects.set(i, r);
        }
        proof {
            assert(regs(projects@)[i as int] == target[i as int]);
            assert forall|j: int| 0 <= j < i + 1 implies #[trigger] regs(projects@)[j] == target[j] by {
                if j < i {
                    assert(projects@[j] == prev[j]);
                    assert(regs(prev)[j] == target[j]);
                }
            }
            assert forall|j: int| i + 1 <= j < before.len() implies #[trigger] regs(projects@)[j] == before[j] by {
                assert(projects@[j] == prev[j]);
                assert(regs(prev)[j] == before[j]);
            }
        }
        i = i + 1;
    }
    assert(regs(projects@) =~= target);
    Ok(())
}

/// Relocating keeps the registrations well formed.
pub proof fn lemma_relocate_keeps_well_formed(v: Seq<RegView>, id: Seq<char>, new_path: Seq<char>)
    requires
        well_formed(v),
        !exists|j: int| 0 <= j < v.len() && (#[trigger] v[j]).1 == new_path,
    ensures
        well_formed(v.map_values(|r: RegView| if r.0 == id { (r.0, new_path, r.2) } else { r })),
{
    let after = v.map_values(|r: RegView| if r.0 == id { (r.0, new_path, r.2) } else { r });
    assert forall|i: int, j: int| 0 <= i < after.len() && 0 <= j < after.len() && i != j
        implies (#[trigger] after[i]).0 != (#[trigger] after[j]).0 && after[i].1 != after[j].1 by {
        assert(v[i].0 != v[j].0 && v[i].1 != v[j].1);
        if v[i].0 == id {
            assert(v[j].1 != new_path);
        }
        if v[j].0 == id {
            assert(v[i].1 != new_path);
        }
    }
}

/// Unregistering keeps the registrations well formed, and no registration
/// of the project remains.
pub proof fn lemma_unregister_removes(v: Seq<RegView>, id: Seq<char>)
    requires
        well_formed(v),
    ensures
        well_formed(without(v, id)),
        forall|i: int| 0 <= i < without(v, id).len() ==> (#[trigger] without(v, id)[i]).0 != id,
{
    lemma_filter_keeps_well_formed(v, id);
}

proof fn lemma_filter_keeps_well_formed(v: Seq<RegView>, id: Seq<char>)
    requires
        well_formed(v),
    ensures
        well_formed(without(v, id)),
        forall|i: int| 0 <= i < without(v, id).len() ==> (#[trigger] without(v, id)[i]).0 != id,
        forall|x: RegView| without(v, id).contains(x) ==> v.contains(x),
    decreases v.len(),
{
    if v.len() > 0 {
        let w = v.drop_last();
        assert(well_formed(w)) by {
            assert forall|i: int, j: int| 0 <= i < w.len() && 0 <= j < w.len() && i != j
                implies (#[trigger] w[i]).0 != (#[trigger] w[j]).0 && w[i].1 != w[j].1 by {
                assert(w[i] == v[i] && w[j] == v[j]);
            }
        }
        lemma_filter_keeps_well_formed(w, id);
        let f = without(v, id);
        let g = without(w, id);
        assert forall|x: RegView| g.contains(x) implies v.contains(x) by {
            assert(w.contains(x));
            let q = choose|q: int| 0 <= q < w.len() && w[q] == x;
            assert(v[q] == x);
        }
        if v.last().0 != id {
            let n = g.len() as int;
            assert forall|k: int| 0 <= k < n implies (#[trigger] g[k]).0 != v.last().0 && g[k].1 != v.last().1 by {
                assert(g.contains(g[k]));
                assert(w.contains(g[k]));
                let m = choose|m: int| 0 <= m < w.len() && w[m] == g[k];
                assert(v[m] == w[m]);
                assert(v[m].0 != v[v.len() - 1].0 && v[m].1 != v[v.len() - 1].1);
            }
            assert forall|i: int, j: int| 0 <= i < f.len() && 0 <= j < f.len() && i != j
                implies (#[trigger] f[i]).0 != (#[trigger] f[j]).0 && f[i].1 != f[j].1 by {
                if i == n {
                    assert(f[j] == g[j]);
                } else if j == n {
                    assert(f[i] == g[i]);
                } else {
                    assert(f[i] == g[i] && f[j] == g[j]);
                }
            }
            assert forall|x: RegView| f.contains(x) implies v.contains(x) by {
                let m = choose|m: int| 0 <= m < f.len() && f[m] == x;
                if m < n {
                    assert(g[m] == x);
                    assert(g.contains(x));
                } else {
                    assert(v[v.len() - 1] == x);
                }
            }
        }
    }
}

} // verus!
