//! What the engine reads out of Git's own output. The commands run elsewhere;
//! here their bytes are decoded and counted.
use crate::text::utf8_text;
use vstd::prelude::*;
use vstd::utf8::{decode_utf8, valid_utf8};

verus! {

/// `s` without its trailing line feeds, as `str::trim_end_matches('\n')`.
pub open spec fn trim_newlines(s: Seq<char>) -> Seq<char>
    decreases s.len(),
{
    if s.len() > 0 && s.last() == '\n' {
        trim_newlines(s.drop_last())
    } else {
        s
    }
}

/// Decodes one command's standard output: absent output stays absent, text
/// loses its trailing line feeds, and bytes that are not UTF-8 are
/// `GIT_INVALID_OUTPUT`.
pub fn text(bytes: Option<Vec<u8>>) -> (res: Result<Option<String>, &'static str>)
    ensures
        match bytes {
            None => res == Ok::<Option<String>, &'static str>(None),
            Some(b) => if valid_utf8(b@) {
                res matches Ok(Some(s)) && s@ == trim_newlines(decode_utf8(b@))
            } else {
                res matches Err(e) && e@ == "GIT_INVALID_OUTPUT"@
            },
        },
{
    match bytes {
        None => Ok(None),
        Some(b) => match utf8_text(b.as_slice()) {
            None => Err("GIT_INVALID_OUTPUT"),
            Some(s) => {
                let mut end: usize = s.unicode_len();
                assert(s@.subrange(0, end as int) =~= s@);
                while end > 0 && s.as_str().get_char(end - 1) == '\n'
                    invariant
                        end <= s@.len(),
                        trim_newlines(s@) == trim_newlines(s@.subrange(0, end as int)),
                    decreases end,
                {
                    assert(s@.subrange(0, end as int).drop_last() =~= s@.subrange(0, end - 1));
                    end = end - 1;
                }
                assert(trim_newlines(s@.subrange(0, end as int)) == s@.subrange(0, end as int));
                Ok(Some(s.as_str().substring_char(0, end).to_owned()))
            },
        },
    }
}

/// The bytes of `.project`.
pub open spec fn meta_dir() -> Seq<u8> {
    seq![46u8, 112u8, 114u8, 111u8, 106u8, 101u8, 99u8, 116u8]
}

/// A path of the project's code: neither the metadata directory nor
/// anything under it.
pub open spec fn is_code_path(path: Seq<u8>) -> bool {
    &&& path != meta_dir()
    &&& !(path.len() > meta_dir().len() && path.take(meta_dir().len() as int) == meta_dir()
        && path[meta_dir().len() as int] == 47u8)
}

/// Whether `path` is a code path: not `.project` and not under `.project/`.
pub fn code_path(path: &[u8]) -> (res: bool)
    ensures
        res == is_code_path(path@),
{
    let meta: [u8; 8] = [46u8, 112u8, 114u8, 111u8, 106u8, 101u8, 99u8, 116u8];
    assert(meta@ =~= meta_dir());
    if path.len() < 8 {
        assert(path@ != meta_dir());
        return true;
    }
    let mut i: usize = 0;
    while i < 8
        invariant
            i <= 8,
            8 <= path.len(),
            meta@ == meta_dir(),
            forall|j: int| 0 <= j < i ==> path@[j] == meta@[j],
        decreases 8 - i,
    {
        if path[i] != meta[i] {
            assert(path@.take(8) != meta_dir()) by {
                assert(path@.take(8)[i as int] != meta_dir()[i as int]);
            }
            assert(path@ != meta_dir()) by {
                assert(path@[i as int] != meta_dir()[i as int]);
            }
            return true;
        }
        i = i + 1;
    }
    assert(path@.take(8) =~= meta_dir());
    if path.len() == 8 {
        assert(path@ =~= meta_dir());
        false
    } else {
        path[8] != 47u8
    }
}

/// The bytes of `gitdir: `.
pub open spec fn gitdir_prefix() -> Seq<u8> {
    seq![103u8, 105u8, 116u8, 100u8, 105u8, 114u8, 58u8, 32u8]
}

/// A `.git` file that links a worktree: at most 4 KiB, starting `gitdir: `.
pub open spec fn is_git_marker(marker: Seq<u8>) -> bool {
    marker.len() <= 4096 && marker.len() >= 8 && marker.take(8) == gitdir_prefix()
}

pub fn git_marker(marker: &[u8]) -> (res: bool)
    ensures
        res == is_git_marker(marker@),
{
    let prefix: [u8; 8] = [103u8, 105u8, 116u8, 100u8, 105u8, 114u8, 58u8, 32u8];
    assert(prefix@ =~= gitdir_prefix());
    if marker.len() > 4096 || marker.len() < 8 {
        return false;
    }
    let mut i: usize = 0;
    while i < 8
        invariant
            i <= 8,
            8 <= marker.len(),
            prefix@ == gitdir_prefix(),
            forall|j: int| 0 <= j < i ==> marker@[j] == prefix@[j],
        decreases 8 - i,
    {
        if marker[i] != prefix[i] {
            assert(marker@.take(8)[i as int] != gitdir_prefix()[i as int]);
            return false;
        }
        i = i + 1;
    }
    assert(marker@.take(8) =~= gitdir_prefix());
    true
}

pub open spec fn is_hex_digit(c: char) -> bool {
    ('0' <= c && c <= '9') || ('a' <= c && c <= 'f') || ('A' <= c && c <= 'F')
}

/// A commit ID as Git prints one: 40 or 64 hexadecimal digits.
pub open spec fn is_commit_id(id: Seq<char>) -> bool {
    (id.len() == 40 || id.len() == 64) && forall|i: int| 0 <= i < id.len() ==> is_hex_digit(#[trigger] id[i])
}

/// Whether `id` is a well-formed commit ID. Its length is counted in bytes by
/// the engine; a string of hexadecimal digits has as many bytes as
/// characters, and any other string is refused either way.
pub fn commit_id(id: &str) -> (res: bool)
    ensures
        res == is_commit_id(id@),
{
    let n = id.unicode_len();
    if n != 40 && n != 64 {
        return false;
    }
    let mut i: usize = 0;
    while i < n
        invariant
            i <= n,
            n == id@.len(),
            forall|j: int| 0 <= j < i ==> is_hex_digit(#[trigger] id@[j]),
        decreases n - i,
    {
        let c = id.get_char(i);
        if !(('0' <= c && c <= '9') || ('a' <= c && c <= 'f') || ('A' <= c && c <= 'F')) {
            assert(!is_hex_digit(id@[i as int]));
            return false;
        }
        i = i + 1;
    }
    true
}

/// The pieces of `s` between NUL bytes, as `split(|b| *b == 0)` yields them.
pub open spec fn split_nul(s: Seq<u8>) -> Seq<Seq<u8>>
    decreases s.len(),
{
    if s.len() == 0 {
        seq![seq![]]
    } else {
        let prev = split_nul(s.drop_last());
        if s.last() == 0 {
            prev.push(seq![])
        } else {
            prev.update(prev.len() - 1, prev.last().push(s.last()))
        }
    }
}

proof fn lemma_split_nul_nonempty(s: Seq<u8>)
    ensures
        split_nul(s).len() >= 1,
    decreases s.len(),
{
    if s.len() > 0 {
        lemma_split_nul_nonempty(s.drop_last());
    }
}

/// How many of the pieces are non-empty code paths.
pub open spec fn count_staged(pieces: Seq<Seq<u8>>) -> nat
    decreases pieces.len(),
{
    if pieces.len() == 0 {
        0
    } else {
        count_staged(pieces.drop_last()) + if pieces.last().len() > 0 && is_code_path(pieces.last()) {
            1nat
        } else {
            0nat
        }
    }
}

proof fn lemma_count_staged_push(pieces: Seq<Seq<u8>>, p: Seq<u8>)
    ensures
        count_staged(pieces.push(p)) == count_staged(pieces) + if p.len() > 0 && is_code_path(p) {
            1nat
        } else {
            0nat
        },
{
    assert(pieces.push(p).drop_last() =~= pieces);
}

/// Counts the staged paths in NUL-separated `git diff-index --name-only -z`
/// or `git ls-files -z` output: the non-empty entries that are code paths.
pub fn staged_paths(output: &[u8]) -> (res: usize)
    ensures
        res == count_staged(split_nul(output@)),
{
    let ghost mut done: Seq<Seq<u8>> = seq![];
    let mut cur: Vec<u8> = Vec::new();
    let mut count: usize = 0;
    let mut i: usize = 0;
    while i < output.len()
        invariant
            i <= output.len(),
            split_nul(output@.take(i as int)) == done.push(cur@),
            count == count_staged(done),
            count + cur.len() <= i,
        decreases output.len() - i,
    {
        let b = output[i];
        assert(output@.take(i + 1).drop_last() =~= output@.take(i as int));
        assert(output@.take(i + 1).last() == b);
        if b == 0 {
            let keep = cur.len() > 0 && code_path(cur.as_slice());
            proof {
                lemma_count_staged_push(done, cur@);
                done = done.push(cur@);
            }
            if keep {
                count = count + 1;
            }
            cur = Vec::new();
        } else {
            cur.push(b);
            proof {
                assert(done.push(cur@) =~= done.push(cur@.drop_last()).update(done.len() as int, cur@));
            }
        }
        i = i + 1;
    }
    assert(output@.take(i as int) =~= output@);
    let keep = cur.len() > 0 && code_path(cur.as_slice());
    proof {
        lemma_count_staged_push(done, cur@);
    }
    if keep {
        count + 1
    } else {
        count
    }
}

/// The path of an unmerged entry: what follows its first tab, if it has one.
pub open spec fn after_tab(entry: Seq<u8>) -> Option<Seq<u8>> {
    if exists|i: int| 0 <= i < entry.len() && entry[i] == 9u8 {
        let i = choose|i: int| 0 <= i < entry.len() && entry[i] == 9u8 && forall|j: int| 0 <= j < i ==> entry[j] != 9u8;
        Some(entry.skip(i + 1))
    } else {
        None
    }
}

/// The distinct conflicted code paths named by the entries.
pub open spec fn conflict_set(pieces: Seq<Seq<u8>>) -> Set<Seq<u8>> {
    Set::new(|p: Seq<u8>| exists|k: int| 0 <= k < pieces.len() && after_tab(#[trigger] pieces[k]) == Some(p) && is_code_path(p))
}

/// The position of the first tab, found the way `after_tab` picks it.
fn first_tab(entry: &Vec<u8>) -> (res: Option<usize>)
    ensures
        match res {
            Some(i) => i < entry.len() && after_tab(entry@) == Some(entry@.skip(i + 1)),
            None => after_tab(entry@) is None,
        },
{
    let mut i: usize = 0;
    while i < entry.len()
        invariant
            i <= entry.len(),
            forall|j: int| 0 <= j < i ==> entry@[j] != 9u8,
        decreases entry.len() - i,
    {
        if entry[i] == 9u8 {
            proof {
                let e = entry@;
                assert(exists|k: int| 0 <= k < e.len() && e[k] == 9u8);
                let c = choose|k: int| 0 <= k < e.len() && e[k] == 9u8 && forall|j: int| 0 <= j < k ==> e[j] != 9u8;
                assert(0 <= i < e.len() && e[i as int] == 9u8 && forall|j: int| 0 <= j < i ==> e[j] != 9u8);
                if c < i {
                    assert(e[c] != 9u8);
                } else if c > i {
                    assert(e[i as int] != 9u8);
                }
            }
            return Some(i);
        }
        i = i + 1;
    }
    None
}

fn bytes_eq(a: &Vec<u8>, b: &Vec<u8>) -> (res: bool)
    ensures
        res == (a@ == b@),
{
    if a.len() != b.len() {
        return false;
    }
    let mut i: usize = 0;
    while i < a.len()
        invariant
            i <= a.len(),
            a.len() == b.len(),
            forall|j: int| 0 <= j < i ==> a@[j] == b@[j],
        decreases a.len() - i,
    {
        if a[i] != b[i] {
            return false;
        }
        i = i + 1;
    }
    assert(a@ =~= b@);
    true
}

fn tail(entry: &Vec<u8>, from: usize) -> (res: Vec<u8>)
    requires
        from <= entry.len(),
    ensures
        res@ == entry@.skip(from as int),
{
    let mut out: Vec<u8> = Vec::new();
    let mut i: usize = from;
    while i < entry.len()
        invariant
            from <= i <= entry.len(),
            out@ == entry@.subrange(from as int, i as int),
        decreases entry.len() - i,
    {
        out.push(entry[i]);
        assert(out@ =~= entry@.subrange(from as int, i + 1));
        i = i + 1;
    }
    assert(out@ =~= entry@.skip(from as int));
    out
}

/// Adds the conflicted path of one entry to the distinct paths seen.
fn note_conflict(seen: &mut Vec<Vec<u8>>, entry: &Vec<u8>, Ghost(done): Ghost<Seq<Seq<u8>>>)
    requires
        old(seen)@.map_values(|v: Vec<u8>| v@).no_duplicates(),
        old(seen)@.map_values(|v: Vec<u8>| v@).to_set() == conflict_set(done),
    ensures
        final(seen)@.map_values(|v: Vec<u8>| v@).no_duplicates(),
        final(seen)@.map_values(|v: Vec<u8>| v@).to_set() == conflict_set(done.push(entry@)),
{
    let ghost before = seen@.map_values(|v: Vec<u8>| v@);
    let ghost all = done.push(entry@);
    assert(all.drop_last() =~= done);
    assert(all[done.len() as int] == entry@);
    let found = first_tab(entry);
    match found {
        None => {
            assert(conflict_set(all) =~= conflict_set(done)) by {
                assert forall|p: Seq<u8>| conflict_set(all).contains(p) implies conflict_set(done).contains(p) by {
                    let k = choose|k: int| 0 <= k < all.len() && after_tab(#[trigger] all[k]) == Some(p) && is_code_path(p);
                    assert(k < done.len());
                    assert(all[k] == done[k]);
                }
                assert forall|p: Seq<u8>| conflict_set(done).contains(p) implies conflict_set(all).contains(p) by {
                    let k = choose|k: int| 0 <= k < done.len() && after_tab(#[trigger] done[k]) == Some(p) && is_code_path(p);
                    assert(all[k] == done[k]);
                }
            }
        },
        Some(t) => {
            let path = tail(entry, t + 1);
            let code = code_path(path.as_slice());
            let mut present = false;
            let mut j: usize = 0;
            while j < seen.len()
                invariant
                    j <= seen.len(),
                    seen@.map_values(|v: Vec<u8>| v@) == before,
                    present == exists|x: int| 0 <= x < j && before[x] == path@,
                decreases seen.len() - j,
            {
                if bytes_eq(&seen[j], &path) {
                    assert(before[j as int] == path@);
                    present = true;
                }
                j = j + 1;
            }
            proof {
                assert forall|p: Seq<u8>| conflict_set(all).contains(p) <==> (conflict_set(done).contains(p) || (p == path@ && is_code_path(p))) by {
                    if conflict_set(all).contains(p) {
                        let k = choose|k: int| 0 <= k < all.len() && after_tab(#[trigger] all[k]) == Some(p) && is_code_path(p);
                        if k < done.len() {
                            assert(all[k] == done[k]);
                        }
                    }
                    if conflict_set(done).contains(p) {
                        let k = choose|k: int| 0 <= k < done.len() && after_tab(#[trigger] done[k]) == Some(p) && is_code_path(p);
                        assert(all[k] == done[k]);
                    }
                    if p == path@ && is_code_path(p) {
                        assert(after_tab(all[done.len() as int]) == Some(p));
                    }
                }
            }
            if code && !present {
                seen.push(path);
                proof {
                    let after = seen@.map_values(|v: Vec<u8>| v@);
                    assert(after =~= before.push(path@));
                    assert(!before.contains(path@));
                    assert(after.to_set() =~= conflict_set(all)) by {
                        before.lemma_push_to_set_commute(path@);
                    }
                }
            } else {
                proof {
                    assert(before.to_set() =~= conflict_set(all)) by {
                        if present {
                            let x = choose|x: int| 0 <= x < before.len() && before[x] == path@;
                            assert(before.to_set().contains(path@));
                        }
                    }
                }
            }
        },
    }
}

/// Counts the distinct conflicted code paths in `git ls-files --unmerged -z`
/// output. Each entry names its path after a tab; an entry without one names
/// none.
pub fn conflicted_paths(output: &[u8]) -> (res: usize)
    ensures
        res == conflict_set(split_nul(output@)).len(),
{
    let ghost mut done: Seq<Seq<u8>> = seq![];
    let mut seen: Vec<Vec<u8>> = Vec::new();
    let mut cur: Vec<u8> = Vec::new();
    let mut i: usize = 0;
    proof {
        assert(seen@.map_values(|v: Vec<u8>| v@).to_set() =~= conflict_set(done));
    }
    while i < output.len()
        invariant
            i <= output.len(),
            split_nul(output@.take(i as int)) == done.push(cur@),
            seen@.map_values(|v: Vec<u8>| v@).no_duplicates(),
            seen@.map_values(|v: Vec<u8>| v@).to_set() == conflict_set(done),
        decreases output.len() - i,
    {
        let b = output[i];
        assert(output@.take(i + 1).drop_last() =~= output@.take(i as int));
        assert(output@.take(i + 1).last() == b);
        if b == 0 {
            note_conflict(&mut seen, &cur, Ghost(done));
            proof {
                done = done.push(cur@);
            }
            cur = Vec::new();
        } else {
            cur.push(b);
            proof {
                assert(done.push(cur@) =~= done.push(cur@.drop_last()).update(done.len() as int, cur@));
            }
        }
        i = i + 1;
    }
    assert(output@.take(i as int) =~= output@);
    note_conflict(&mut seen, &cur, Ghost(done));
    proof {
        let s = seen@.map_values(|v: Vec<u8>| v@);
        s.unique_seq_to_set();
    }
    seen.len()
}

/// What the repository's HEAD must read as: a commit, if any, is a
/// well-formed ID (`GIT_INVALID_OUTPUT`), and a repository with neither a
/// branch nor a commit has no usable HEAD (`GIT_HEAD_UNAVAILABLE`).
pub fn check_head(branch: &Option<String>, commit: &Option<String>) -> (res: Result<(), &'static str>)
    ensures
        (commit matches Some(c) && !is_commit_id(c@)) ==> (res matches Err(code) && code@ == "GIT_INVALID_OUTPUT"@),
        !(commit matches Some(c) && !is_commit_id(c@)) && commit is None && branch is None ==> (res matches Err(code)
            && code@ == "GIT_HEAD_UNAVAILABLE"@),
        !(commit matches Some(c) && !is_commit_id(c@)) && !(commit is None && branch is None) ==> res is Ok,
{
    if let Some(c) = commit {
        if !commit_id(c.as_str()) {
            return Err("GIT_INVALID_OUTPUT");
        }
    }
    if commit.is_none() && branch.is_none() {
        return Err("GIT_HEAD_UNAVAILABLE");
    }
    Ok(())
}

/// Most bytes all the `git` commands of one observation may print.
pub const MAX_OUTPUT: usize = 2097152;

/// A command is not started once the observation's deadline has passed:
/// `GIT_TIMEOUT`.
pub fn start_check(past_deadline: bool) -> (res: Result<(), &'static str>)
    ensures
        past_deadline ==> (res matches Err(c) && c@ == "GIT_TIMEOUT"@),
        !past_deadline ==> res is Ok,
{
    if past_deadline {
        Err("GIT_TIMEOUT")
    } else {
        Ok(())
    }
}

/// One read of a running command: `held` bytes printed so far, `chunk`
/// more just read (none when nothing was ready), under what is left of the
/// observation's budget. Printing past the budget stops the command with
/// `GIT_OUTPUT_LIMIT`; otherwise a passed deadline stops it with
/// `GIT_TIMEOUT`; otherwise it goes on holding `held + chunk` bytes.
pub fn read_step(held: usize, chunk: usize, budget: usize, past_deadline: bool) -> (res: Result<usize, &'static str>)
    requires
        held <= budget,
    ensures
        held + chunk > budget ==> (res matches Err(c) && c@ == "GIT_OUTPUT_LIMIT"@),
        held + chunk <= budget && past_deadline ==> (res matches Err(c) && c@ == "GIT_TIMEOUT"@),
        held + chunk <= budget && !past_deadline ==> res == Ok::<usize, &'static str>((held + chunk) as usize),
        res matches Ok(h) ==> h <= budget,
{
    if chunk > budget - held {
        Err("GIT_OUTPUT_LIMIT")
    } else if past_deadline {
        Err("GIT_TIMEOUT")
    } else {
        Ok(held + chunk)
    }
}

/// What is left of the budget for the observation's later commands once a
/// command printed `printed` bytes.
pub fn budget_after(budget: usize, printed: usize) -> (res: usize)
    requires
        printed <= budget,
    ensures
        res == budget - printed,
{
    budget - printed
}

} // verus!
