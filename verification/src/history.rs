//! A document's history: paging through it, which fields an entry changed,
//! and when an entry can be undone.
use crate::reply::{is_rejection, AppError};
use crate::text::{lemma_text_lt_irreflexive, lemma_text_lt_total, lemma_text_lt_transitive, text_eq, text_less, text_lt};
use vstd::prelude::*;

verus! {

/// Most changed fields listed for one entry.
pub const MAX_FIELDS: usize = 100;

/// A history cursor must name the page's revision (`409 PAGE_STALE`) and a
/// row to continue before (`400 INVALID_CURSOR`).
pub fn cursor_row(revision_matches: bool, row: Option<i64>) -> (res: Result<i64, AppError>)
    ensures
        !revision_matches ==> (res matches Err(e) && is_rejection(e, 409, "PAGE_STALE"@)),
        revision_matches ==> match row {
            Some(r) => res == Ok::<i64, AppError>(r),
            None => res matches Err(e) && is_rejection(e, 400, "INVALID_CURSOR"@),
        },
{
    if !revision_matches {
        return Err(AppError::reject(409, "PAGE_STALE"));
    }
    match row {
        Some(r) => Ok(r),
        None => Err(AppError::reject(400, "INVALID_CURSOR")),
    }
}

/// Strictly increasing in byte order, as a `BTreeSet<String>` iterates.
pub open spec fn strictly_sorted(s: Seq<Seq<char>>) -> bool {
    forall|i: int, j: int| 0 <= i < j < s.len() ==> text_lt(#[trigger] s[i], #[trigger] s[j])
}

pub open spec fn texts(v: Seq<String>) -> Seq<Seq<char>> {
    v.map_values(|s: String| s@)
}

/// Adds a name to a set kept in byte order.
pub fn insert_sorted(set: &mut Vec<String>, name: &str)
    requires
        strictly_sorted(texts(old(set)@)),
    ensures
        strictly_sorted(texts(final(set)@)),
        texts(final(set)@).to_set() == texts(old(set)@).to_set().insert(name@),
{
    let ghost s0 = texts(set@);
    let mut p: usize = 0;
    while p < set.len() && text_less(set[p].as_str(), name)
        invariant
            p <= set.len(),
            s0 == texts(set@),
            strictly_sorted(s0),
            forall|i: int| 0 <= i < p ==> text_lt(#[trigger] s0[i], name@),
        decreases set.len() - p,
    {
        p = p + 1;
    }
    if p < set.len() && text_eq(set[p].as_str(), name) {
        assert(s0.to_set().insert(name@) =~= s0.to_set()) by {
            assert(s0.contains(name@)) by {
                assert(s0[p as int] == name@);
            }
        }
        return;
    }
    proof {
        if p < s0.len() {
            lemma_text_lt_total(s0[p as int], name@);
        }
    }
    set.insert(p, name.to_owned());
    proof {
        let s1 = texts(set@);
        assert(s1 =~= s0.insert(p as int, name@));
        assert forall|j: int| p < j < s1.len() implies text_lt(name@, #[trigger] s1[j]) by {
            assert(s1[j] == s0[j - 1]);
            if j - 1 > p {
                lemma_text_lt_transitive(name@, s0[p as int], s0[j - 1]);
            }
        }
        assert forall|i: int, j: int| 0 <= i < j < s1.len() implies text_lt(#[trigger] s1[i], #[trigger] s1[j]) by {
            if i < p && j < p {
                assert(s1[i] == s0[i] && s1[j] == s0[j]);
            } else if i < p && j == p {
                assert(s1[i] == s0[i]);
            } else if i < p && j > p {
                assert(s1[i] == s0[i]);
                lemma_text_lt_transitive(s1[i], name@, s1[j]);
            } else if i == p {
            } else {
                assert(s1[i] == s0[i - 1] && s1[j] == s0[j - 1]);
            }
        }
        assert(s1.to_set() =~= s0.to_set().insert(name@)) by {
            assert forall|x: Seq<char>| s1.to_set().contains(x) <==> s0.to_set().insert(name@).contains(x) by {
                if s1.contains(x) {
                    let k = choose|k: int| 0 <= k < s1.len() && s1[k] == x;
                    if k < p {
                        assert(s0[k] == x);
                    } else if k > p {
                        assert(s0[k - 1] == x);
                    }
                }
                if s0.contains(x) {
                    let k = choose|k: int| 0 <= k < s0.len() && s0[k] == x;
                    if k < p {
                        assert(s1[k] == x);
                    } else {
                        assert(s1[k + 1] == x);
                    }
                }
                if x == name@ {
                    assert(s1[p as int] == x);
                }
            }
        }
    }
}

/// A metadata field as compared between versions: its name and its value's
/// canonical JSON text.
pub struct Field {
    pub name: String,
    pub value: String,
}

pub open spec fn field_view(f: Field) -> (Seq<char>, Seq<char>) {
    (f.name@, f.value@)
}

/// The value a version gives a field, if it has the field.
pub open spec fn find_value(f: Seq<(Seq<char>, Seq<char>)>, name: Seq<char>) -> Option<Seq<char>>
    decreases f.len(),
{
    if f.len() == 0 {
        None
    } else if f[0].0 == name {
        Some(f[0].1)
    } else {
        find_value(f.drop_first(), name)
    }
}

pub open spec fn value_of(fields: Option<Seq<(Seq<char>, Seq<char>)>>, name: Seq<char>) -> Option<Seq<char>> {
    match fields {
        None => None,
        Some(f) => find_value(f, name),
    }
}

proof fn lemma_found_key(f: Seq<(Seq<char>, Seq<char>)>, name: Seq<char>)
    requires
        find_value(f, name) is Some,
    ensures
        exists|k: int| 0 <= k < f.len() && f[k].0 == name,
    decreases f.len(),
{
    if f[0].0 != name {
        lemma_found_key(f.drop_first(), name);
        let k = choose|k: int| 0 <= k < f.drop_first().len() && f.drop_first()[k].0 == name;
        assert(f[k + 1] == f.drop_first()[k]);
    }
}

/// The fields an entry changed: every field of either version, other than
/// `updated_at`, whose value differs between them, and `body` when the body
/// changed.
pub open spec fn is_changed(
    before: Option<Seq<(Seq<char>, Seq<char>)>>,
    after: Option<Seq<(Seq<char>, Seq<char>)>>,
    body_changed: bool,
    name: Seq<char>,
) -> bool {
    ||| (name == "body"@ && body_changed)
    ||| (name != "updated_at"@ && value_of(before, name) != value_of(after, name))
}

pub open spec fn fields_view(f: Option<&Vec<Field>>) -> Option<Seq<(Seq<char>, Seq<char>)>> {
    match f {
        Some(v) => Some(v@.map_values(|x: Field| field_view(x))),
        None => None,
    }
}

/// Looks up a field by name.
fn lookup(fields: Option<&Vec<Field>>, name: &str) -> (res: Option<String>)
    ensures
        match res {
            Some(s) => value_of(fields_view(fields), name@) == Some(s@),
            None => value_of(fields_view(fields), name@) is None,
        },
{
    match fields {
        None => None,
        Some(v) => {
            let ghost fv = v@.map_values(|x: Field| field_view(x));
            assert(fields_view(fields) == Some(fv));
            assert(fv.skip(0) =~= fv);
            let mut i: usize = 0;
            while i < v.len()
                invariant
                    i <= v.len(),
                    fv == v@.map_values(|x: Field| field_view(x)),
                    fields_view(fields) == Some(fv),
                    find_value(fv, name@) == find_value(fv.skip(i as int), name@),
                decreases v.len() - i,
            {
                assert(fv.skip(i as int)[0] == fv[i as int]);
                assert(fv.skip(i as int).drop_first() =~= fv.skip(i + 1));
                assert(fv[i as int] == field_view(v@[i as int]));
                if text_eq(v[i].name.as_str(), name) {
                    let value = v[i].value.clone();
                    return Some(value);
                }
                i = i + 1;
            }
            assert(fv.skip(i as int) =~= Seq::<(Seq<char>, Seq<char>)>::empty());
            None
        },
    }
}

fn same_value(a: &Option<String>, b: &Option<String>) -> (res: bool)
    ensures
        res == (match (a, b) {
            (Some(x), Some(y)) => x@ == y@,
            (None, None) => true,
            _ => false,
        }),
{
    match (a, b) {
        (Some(x), Some(y)) => text_eq(x.as_str(), y.as_str()),
        (None, None) => true,
        _ => false,
    }
}

/// Collects the changed fields of one version into the sorted set.
fn collect_changes(
    set: &mut Vec<String>,
    source: &Vec<Field>,
    before: Option<&Vec<Field>>,
    after: Option<&Vec<Field>>,
)
    requires
        strictly_sorted(texts(old(set)@)),
        forall|x: Seq<char>| texts(old(set)@).contains(x) ==> is_changed(fields_view(before), fields_view(after), false, x),
    ensures
        strictly_sorted(texts(final(set)@)),
        forall|x: Seq<char>| texts(final(set)@).contains(x) ==> is_changed(fields_view(before), fields_view(after), false, x),
        forall|x: Seq<char>| texts(old(set)@).contains(x) ==> texts(final(set)@).contains(x),
        forall|k: int| 0 <= k < source@.len() && is_changed(fields_view(before), fields_view(after), false, #[trigger] source@[k].name@)
            ==> texts(final(set)@).contains(source@[k].name@),
{
    let ghost s0 = texts(set@);
    let mut i: usize = 0;
    while i < source.len()
        invariant
            i <= source.len(),
            strictly_sorted(texts(set@)),
            forall|x: Seq<char>| texts(set@).contains(x) ==> is_changed(fields_view(before), fields_view(after), false, x),
            forall|x: Seq<char>| s0.contains(x) ==> texts(set@).contains(x),
            forall|k: int| 0 <= k < i && is_changed(fields_view(before), fields_view(after), false, #[trigger] source@[k].name@)
                ==> texts(set@).contains(source@[k].name@),
        decreases source.len() - i,
    {
        let name = source[i].name.as_str();
        let b = lookup(before, name);
        let a = lookup(after, name);
        let differs = !text_eq(name, "updated_at") && !same_value(&b, &a);
        let ghost prev = texts(set@);
        if differs {
            insert_sorted(set, name);
            assert(texts(set@).contains(name@)) by {
                assert(texts(set@).to_set().contains(name@));
            }
        }
        proof {
            assert forall|x: Seq<char>| texts(set@).contains(x) implies is_changed(fields_view(before), fields_view(after), false, x) by {
                if differs {
                    assert(texts(set@).to_set().contains(x));
                    if x != name@ {
                        assert(prev.to_set().contains(x));
                    }
                }
            }
            assert forall|x: Seq<char>| s0.contains(x) implies texts(set@).contains(x) by {
                if differs {
                    assert(prev.contains(x));
                    assert(prev.to_set().contains(x));
                    assert(texts(set@).to_set().contains(x));
                }
            }
            assert forall|k: int| 0 <= k < i + 1 && is_changed(fields_view(before), fields_view(after), false, #[trigger] source@[k].name@)
                implies texts(set@).contains(source@[k].name@) by {
                if k < i && differs {
                    assert(prev.contains(source@[k].name@));
                    assert(prev.to_set().contains(source@[k].name@));
                    assert(texts(set@).to_set().contains(source@[k].name@));
                }
            }
        }
        i = i + 1;
    }
}

/// The fields one history entry changed, in byte order: the first 100 of
/// all changed fields. The fields of each version are given by name, as
/// the keys of a JSON object are.
pub fn changed_fields(before: Option<&Vec<Field>>, after: Option<&Vec<Field>>, body_changed: bool) -> (res: Vec<String>)
    ensures
        exists|all: Seq<Seq<char>>|
            strictly_sorted(all) && (forall|x: Seq<char>| all.contains(x) <==> is_changed(fields_view(before), fields_view(after), body_changed, x))
                && texts(res@) == all.take(if all.len() < MAX_FIELDS { all.len() as int } else { MAX_FIELDS as int }),
{
    let mut set: Vec<String> = Vec::new();
    if let Some(v) = before {
        collect_changes(&mut set, v, before, after);
    }
    let ghost after_first = texts(set@);
    if let Some(v) = after {
        collect_changes(&mut set, v, before, after);
    }
    let ghost mid = texts(set@);
    proof {
        assert forall|x: Seq<char>| is_changed(fields_view(before), fields_view(after), false, x) implies mid.contains(x) by {
            let bv = fields_view(before);
            let av = fields_view(after);
            if value_of(bv, x) is Some {
                let f = bv.unwrap();
                lemma_found_key(f, x);
                let k = choose|k: int| 0 <= k < f.len() && f[k].0 == x;
                let v = before.unwrap();
                assert(f[k] == field_view(v@[k]));
                assert(v@[k].name@ == x);
                assert(after_first.contains(x));
            } else {
                assert(value_of(av, x) is Some);
                let f = av.unwrap();
                lemma_found_key(f, x);
                let k = choose|k: int| 0 <= k < f.len() && f[k].0 == x;
                let v = after.unwrap();
                assert(f[k] == field_view(v@[k]));
                assert(v@[k].name@ == x);
            }
        }
    }
    if body_changed {
        insert_sorted(&mut set, "body");
    }
    let ghost all = texts(set@);
    proof {
        assert forall|x: Seq<char>| all.contains(x) <==> is_changed(fields_view(before), fields_view(after), body_changed, x) by {
            if body_changed {
                if all.contains(x) {
                    assert(all.to_set().contains(x));
                    if x != "body"@ {
                        assert(mid.to_set().contains(x));
                    }
                }
                if is_changed(fields_view(before), fields_view(after), body_changed, x) {
                    if x == "body"@ {
                        assert(all.to_set().contains(x));
                    } else {
                        assert(mid.contains(x));
                        assert(mid.to_set().contains(x));
                        assert(all.to_set().contains(x));
                    }
                }
            }
        }
    }
    let mut out: Vec<String> = Vec::new();
    let mut i: usize = 0;
    while i < set.len() && i < MAX_FIELDS
        invariant
            i <= set.len(),
            i <= MAX_FIELDS,
            all == texts(set@),
            texts(out@) == all.take(i as int),
        decreases set.len() - i,
    {
        let ghost before_push = texts(out@);
        let name = set[i].clone();
        assert(name@ == all[i as int]);
        out.push(name);
        assert(texts(out@) =~= before_push.push(all[i as int]));
        assert(all.take(i + 1) =~= all.take(i as int).push(all[i as int]));
        i = i + 1;
    }
    proof {
        let n = if all.len() < MAX_FIELDS { all.len() as int } else { MAX_FIELDS as int };
        assert(i == n);
        assert(strictly_sorted(all));
        assert(texts(out@) == all.take(n));
    }
    out
}

/// An entry can be undone when it replaced an earlier version, its document
/// is not an update, and the source is still the version it wrote.
pub fn can_undo(has_before: bool, is_update: bool, after_version: &str, current: &str) -> (res: bool)
    ensures
        res == (has_before && !is_update && after_version@ == current@),
{
    has_before && !is_update && text_eq(after_version, current)
}

/// Checks an undo against the history row it names: the row must exist
/// (`404 HISTORY_NOT_FOUND`), the source must still be the version it wrote
/// (`409 UNDO_TARGET_CHANGED`), and it must have replaced an earlier version
/// (`409 UNDO_CREATE_NOT_SUPPORTED`). The earlier bytes are what to restore.
pub fn undo_source(row: Option<(Option<Vec<u8>>, String)>, current: &str) -> (res: Result<Vec<u8>, AppError>)
    ensures
        match row {
            None => res matches Err(e) && is_rejection(e, 404, "HISTORY_NOT_FOUND"@),
            Some((before, after)) => if after@ != current@ {
                res matches Err(e) && is_rejection(e, 409, "UNDO_TARGET_CHANGED"@)
            } else {
                match before {
                    None => res matches Err(e) && is_rejection(e, 409, "UNDO_CREATE_NOT_SUPPORTED"@),
                    Some(b) => res matches Ok(r) && r@ == b@,
                }
            },
        },
{
    match row {
        None => Err(AppError::reject(404, "HISTORY_NOT_FOUND")),
        Some((before, after)) => {
            if !text_eq(after.as_str(), current) {
                return Err(AppError::reject(409, "UNDO_TARGET_CHANGED"));
            }
            match before {
                None => Err(AppError::reject(409, "UNDO_CREATE_NOT_SUPPORTED")),
                Some(b) => Ok(b),
            }
        },
    }
}

} // verus!
