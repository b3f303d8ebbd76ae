//! Owner-approved directory roots: browsers reach only directories below
//! them, by relative paths that cannot climb out.
use crate::reply::{is_rejection, AppError};
use crate::text::{text_eq, text_less, text_lt};
use vstd::prelude::*;
use vstd::string::StringSliceAdditionalSpecFns;

verus! {

/// Most roots the owner may approve.
pub const MAX_ROOTS: usize = 100;

/// Most directories one browse page lists.
pub const BROWSE_PAGE: usize = 200;

/// An approved root, by what the checks read of it.
pub struct Root {
    pub id: String,
    pub display_path: String,
    pub identity: (u64, u64),
}

/// The pieces of `s` between slashes, empty ones included.
pub open spec fn split_slash(s: Seq<char>) -> Seq<Seq<char>>
    decreases s.len(),
{
    if s.len() == 0 {
        seq![seq![]]
    } else {
        let prev = split_slash(s.drop_last());
        if s.last() == '/' {
            prev.push(seq![])
        } else {
            prev.update(prev.len() - 1, prev.last().push(s.last()))
        }
    }
}

/// A piece that would name no directory or climb.
pub open spec fn bad_part(p: Seq<char>) -> bool {
    p.len() == 0 || p == "."@ || p == ".."@
}

/// The directories a relative path descends through, or `None` when it is
/// refused: longer than 4096 bytes, absolute, holding a backslash, or with
/// an empty, `.` or `..` component. The empty path and `.` name the root.
pub open spec fn relative_parts_spec(relative: Seq<char>, bytes: nat) -> Option<Seq<Seq<char>>> {
    if bytes > 4096 || (relative.len() > 0 && relative[0] == '/') || relative.contains('\\') {
        None
    } else if relative.len() == 0 || relative == "."@ {
        Some(seq![])
    } else if exists|i: int| 0 <= i < split_slash(relative).len() && bad_part(#[trigger] split_slash(relative)[i]) {
        None
    } else {
        Some(split_slash(relative))
    }
}

fn part_is_bad(part: &str) -> (res: bool)
    ensures
        res == bad_part(part@),
{
    part.unicode_len() == 0 || text_eq(part, ".") || text_eq(part, "..")
}

/// Splits a relative path under a root into the directories it descends
/// through; a refused path is `400 INVALID_RELATIVE_PATH`.
pub fn relative_parts(relative: &str) -> (res: Result<Vec<String>, AppError>)
    ensures
        match relative_parts_spec(relative@, relative.spec_bytes().len()) {
            Some(parts) => res matches Ok(v) && v@.map_values(|s: String| s@) == parts,
            None => res matches Err(e) && is_rejection(e, 400, "INVALID_RELATIVE_PATH"@),
        },
{
    let n = relative.unicode_len();
    if relative.as_bytes().len() > 4096 {
        return Err(AppError::reject(400, "INVALID_RELATIVE_PATH"));
    }
    if n > 0 && relative.get_char(0) == '/' {
        return Err(AppError::reject(400, "INVALID_RELATIVE_PATH"));
    }
    let mut k: usize = 0;
    while k < n
        invariant
            k <= n,
            n == relative@.len(),
            forall|m: int| 0 <= m < k ==> relative@[m] != '\\',
        decreases n - k,
    {
        if relative.get_char(k) == '\\' {
            assert(relative@.contains('\\')) by {
                assert(relative@[k as int] == '\\');
            }
            return Err(AppError::reject(400, "INVALID_RELATIVE_PATH"));
        }
        k = k + 1;
    }
    assert(!relative@.contains('\\'));
    if n == 0 || text_eq(relative, ".") {
        return Ok(Vec::new());
    }
    let ghost mut done: Seq<Seq<char>> = seq![];
    let mut parts: Vec<String> = Vec::new();
    let mut start: usize = 0;
    let mut i: usize = 0;
    assert(relative@.take(0) =~= Seq::<char>::empty());
    assert(relative@.subrange(0, 0) =~= Seq::<char>::empty());
    while i < n
        invariant
            i <= n,
            start <= i,
            n == relative@.len(),
            split_slash(relative@.take(i as int)) == done.push(relative@.subrange(start as int, i as int)),
            parts@.map_values(|s: String| s@) == done,
            forall|j: int| 0 <= j < done.len() ==> !bad_part(#[trigger] done[j]),
            relative.spec_bytes().len() <= 4096,
            !(relative@.len() > 0 && relative@[0] == '/'),
            !relative@.contains('\\'),
            !(relative@.len() == 0 || relative@ == "."@),
        decreases n - i,
    {
        let c = relative.get_char(i);
        assert(relative@.take(i + 1).drop_last() =~= relative@.take(i as int));
        assert(relative@.take(i + 1).last() == c);
        if c == '/' {
            let part = relative.substring_char(start, i);
            if part_is_bad(part) {
                proof {
                    let all = split_slash(relative@);
                    lemma_split_prefix(relative@, (i + 1) as int);
                    assert(split_slash(relative@.take(i + 1)) == done.push(part@).push(seq![]));
                    assert(split_slash(relative@.take(i + 1))[done.len() as int] == part@);
                    assert(all[done.len() as int] == part@);
                    assert(bad_part(all[done.len() as int]));
                }
                return Err(AppError::reject(400, "INVALID_RELATIVE_PATH"));
            }
            let ghost before = parts@.map_values(|s: String| s@);
            parts.push(part.to_owned());
            proof {
                assert(parts@.map_values(|s: String| s@) =~= before.push(part@));
                done = done.push(part@);
                assert(relative@.subrange((i + 1) as int, (i + 1) as int) =~= Seq::<char>::empty());
            }
            start = i + 1;
        } else {
            proof {
                assert(c == relative@[i as int]);
                assert(relative@.subrange(start as int, i + 1) =~= relative@.subrange(start as int, i as int).push(c));
                let prev = done.push(relative@.subrange(start as int, i as int));
                assert(prev.update(prev.len() - 1, prev.last().push(c)) =~= done.push(relative@.subrange(start as int, i + 1)));
            }
        }
        i = i + 1;
    }
    assert(relative@.take(n as int) =~= relative@);
    let last = relative.substring_char(start, n);
    if part_is_bad(last) {
        proof {
            let all = split_slash(relative@);
            assert(all[done.len() as int] == last@);
        }
        return Err(AppError::reject(400, "INVALID_RELATIVE_PATH"));
    }
    let ghost before = parts@.map_values(|s: String| s@);
    parts.push(last.to_owned());
    proof {
        assert(parts@.map_values(|s: String| s@) =~= before.push(last@));
        let all = split_slash(relative@);
        assert(all =~= done.push(last@));
        assert forall|j: int| 0 <= j < all.len() implies !bad_part(#[trigger] all[j]) by {
            if j < done.len() {
                assert(all[j] == done[j]);
            }
        }
    }
    Ok(parts)
}

/// The pieces of a prefix are those of the whole, save the last piece,
/// which the rest of the text may extend.
proof fn lemma_split_prefix(s: Seq<char>, k: int)
    requires
        0 <= k <= s.len(),
    ensures
        split_slash(s.take(k)).len() <= split_slash(s).len(),
        forall|j: int| 0 <= j < split_slash(s.take(k)).len() - 1 ==> split_slash(s)[j] == #[trigger] split_slash(s.take(k))[j],
    decreases s.len() - k,
{
    if k < s.len() {
        lemma_split_prefix(s, k + 1);
        let t = s.take(k + 1);
        assert(t.drop_last() =~= s.take(k));
        assert(t.last() == s[k]);
        lemma_split_len(s.take(k));
        let a = split_slash(s.take(k));
        let b = split_slash(t);
        assert(b == if s[k] == '/' { a.push(seq![]) } else { a.update(a.len() - 1, a.last().push(s[k])) });
        assert forall|j: int| 0 <= j < a.len() - 1 implies split_slash(s)[j] == #[trigger] a[j] by {
            assert(b[j] == a[j]);
            assert(j < b.len() - 1);
        }
    } else {
        assert(s.take(k) =~= s);
    }
}

proof fn lemma_split_len(s: Seq<char>)
    ensures
        split_slash(s).len() >= 1,
    decreases s.len(),
{
    if s.len() > 0 {
        lemma_split_len(s.drop_last());
    }
}

/// A new root is refused past 100 roots (`409 ROOT_LIMIT_REACHED`) and when
/// its path or directory is approved already (`409 ROOT_ALREADY_EXISTS`).
pub fn check_new_root(roots: &Vec<Root>, path: &str, identity: (u64, u64)) -> (res: Result<(), AppError>)
    ensures
        roots@.len() >= MAX_ROOTS ==> (res matches Err(e) && is_rejection(e, 409, "ROOT_LIMIT_REACHED"@)),
        roots@.len() < MAX_ROOTS && (exists|i: int| 0 <= i < roots@.len() && ((#[trigger] roots@[i]).display_path@ == path@ || roots@[i].identity == identity))
            ==> (res matches Err(e) && is_rejection(e, 409, "ROOT_ALREADY_EXISTS"@)),
        roots@.len() < MAX_ROOTS && !(exists|i: int| 0 <= i < roots@.len() && ((#[trigger] roots@[i]).display_path@ == path@ || roots@[i].identity == identity))
            ==> res is Ok,
{
    if roots.len() >= MAX_ROOTS {
        return Err(AppError::reject(409, "ROOT_LIMIT_REACHED"));
    }
    let mut i: usize = 0;
    while i < roots.len()
        invariant
            i <= roots.len(),
            roots@.len() < MAX_ROOTS,
            forall|j: int| 0 <= j < i ==> !((#[trigger] roots@[j]).display_path@ == path@ || roots@[j].identity == identity),
        decreases roots.len() - i,
    {
        if text_eq(roots[i].display_path.as_str(), path) || (roots[i].identity.0 == identity.0 && roots[i].identity.1 == identity.1) {
            return Err(AppError::reject(409, "ROOT_ALREADY_EXISTS"));
        }
        i = i + 1;
    }
    Ok(())
}

/// Finds an approved root by ID (`404 ROOT_NOT_FOUND`); the directory now at
/// its path must be the approved one (`409 ROOT_CHANGED`).
pub fn find_root(roots: &Vec<Root>, id: &str) -> (res: Result<usize, AppError>)
    ensures
        match res {
            Ok(i) => i < roots@.len() && roots@[i as int].id@ == id@,
            Err(e) => is_rejection(e, 404, "ROOT_NOT_FOUND"@) && forall|j: int| 0 <= j < roots@.len() ==> (#[trigger] roots@[j]).id@ != id@,
        },
{
    let mut i: usize = 0;
    while i < roots.len()
        invariant
            i <= roots.len(),
            forall|j: int| 0 <= j < i ==> (#[trigger] roots@[j]).id@ != id@,
        decreases roots.len() - i,
    {
        if text_eq(roots[i].id.as_str(), id) {
            return Ok(i);
        }
        i = i + 1;
    }
    Err(AppError::reject(404, "ROOT_NOT_FOUND"))
}

pub fn check_root_identity(actual: (u64, u64), approved: (u64, u64)) -> (res: Result<(), AppError>)
    ensures
        actual == approved ==> res is Ok,
        actual != approved ==> (res matches Err(e) && is_rejection(e, 409, "ROOT_CHANGED"@)),
{
    if actual.0 != approved.0 || actual.1 != approved.1 {
        Err(AppError::reject(409, "ROOT_CHANGED"))
    } else {
        Ok(())
    }
}

/// Whether a browse lists a name: hidden names never, and with a cursor
/// only names after it.
pub fn listed(name: &str, cursor: Option<&str>) -> (res: bool)
    ensures
        res == (!(name@.len() > 0 && name@[0] == '.') && match cursor {
            Some(c) => text_lt(c@, name@),
            None => true,
        }),
{
    if name.unicode_len() > 0 && name.get_char(0) == '.' {
        return false;
    }
    match cursor {
        Some(c) => text_less(c, name),
        None => true,
    }
}

/// The path of a listed child relative to the root.
pub fn child_relative(relative: &str, name: &str) -> (res: String)
    ensures
        res@ == (if relative@.len() == 0 || relative@ == "."@ { name@ } else { relative@ + "/"@ + name@ }),
{
    if relative.unicode_len() == 0 || text_eq(relative, ".") {
        name.to_owned()
    } else {
        let mut out = relative.to_owned();
        out.append("/");
        out.append(name);
        out
    }
}

} // verus!
