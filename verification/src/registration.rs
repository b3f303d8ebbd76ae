//! Registering a folder: what its existing files must look like, and the
//! bytes that registration writes into `AGENTS.md` and `.gitignore` while
//! preserving what they held.
use crate::reply::{is_rejection, AppError};
use crate::text::{is_space, same_bytes, space_char, text_eq, utf8_text};
use vstd::prelude::*;
use vstd::utf8::{decode_utf8, valid_utf8};

verus! {

/// How a registration step changes a file.
#[derive(Debug, Clone, Copy, PartialEq, Eq, Structural)]
pub enum ChangeAction {
    NoChange,
    Create,
    AppendManagedBlock,
}

/// A step that writes what is there already changes nothing, one with no
/// earlier file creates it, and any other appends the managed block.
pub open spec fn change_action_spec(before: Option<Seq<u8>>, after: Seq<u8>) -> ChangeAction {
    match before {
        Some(b) => if b == after { ChangeAction::NoChange } else { ChangeAction::AppendManagedBlock },
        None => ChangeAction::Create,
    }
}

pub open spec fn opt_bytes(o: Option<Vec<u8>>) -> Option<Seq<u8>> {
    match o {
        Some(b) => Some(b@),
        None => None,
    }
}

pub fn change_action(before: &Option<Vec<u8>>, after: &Vec<u8>) -> (res: ChangeAction)
    ensures
        res == change_action_spec(opt_bytes(*before), after@),
{
    match before {
        None => ChangeAction::Create,
        Some(b) => if same_bytes(b.as_slice(), after.as_slice()) {
            ChangeAction::NoChange
        } else {
            ChangeAction::AppendManagedBlock
        },
    }
}

/// The bytes registration writes to one of the project's template files
/// (`.project/README.md`, `.project/.gitignore`): a file that exists keeps
/// its bytes; a missing one gets the template.
pub open spec fn template_spec(before: Option<Seq<u8>>, template: Seq<u8>) -> Seq<u8> {
    match before {
        Some(b) => b,
        None => template,
    }
}

pub fn template_bytes(before: &Option<Vec<u8>>, template: &[u8]) -> (res: Vec<u8>)
    ensures
        res@ == template_spec(opt_bytes(*before), template@),
{
    match before {
        Some(b) => to_vec(b.as_slice()),
        None => to_vec(template),
    }
}

/// Registration never rewrites a template file that exists: its step
/// changes nothing, and only a missing one is created.
pub proof fn lemma_templates_kept(before: Option<Seq<u8>>, template: Seq<u8>)
    ensures
        change_action_spec(before, template_spec(before, template)) == (if before is Some {
            ChangeAction::NoChange
        } else {
            ChangeAction::Create
        }),
{
}

/// An existing `.project` folder must hold its project document unless it
/// holds nothing but `.local`: `409 PROJECT_DOCUMENT_MISSING`.
pub fn check_project_folder(has_document: bool, names: &Vec<String>) -> (res: Result<(), AppError>)
    ensures
        (!has_document && exists|i: int| 0 <= i < names@.len() && (#[trigger] names@[i])@ != ".local"@) ==> (res matches Err(e)
            && is_rejection(e, 409, "PROJECT_DOCUMENT_MISSING"@)),
        !(!has_document && exists|i: int| 0 <= i < names@.len() && (#[trigger] names@[i])@ != ".local"@) ==> res is Ok,
{
    if has_document {
        return Ok(());
    }
    let mut i: usize = 0;
    while i < names.len()
        invariant
            i <= names.len(),
            !has_document,
            forall|j: int| 0 <= j < i ==> (#[trigger] names@[j])@ == ".local"@,
        decreases names.len() - i,
    {
        if !text_eq(names[i].as_str(), ".local") {
            assert(names@[i as int]@ != ".local"@);
            return Err(AppError::reject(409, "PROJECT_DOCUMENT_MISSING"));
        }
        i = i + 1;
    }
    Ok(())
}

pub open spec fn ascii_lower(c: char) -> char {
    if 'A' <= c && c <= 'Z' { ((c as u32) + 32) as char } else { c }
}

/// A name that equals `agents.md` ignoring ASCII case but is not spelled
/// `AGENTS.md`.
pub open spec fn agents_case_variant(name: Seq<char>) -> bool {
    &&& name.len() == 9
    &&& forall|i: int| 0 <= i < 9 ==> ascii_lower(#[trigger] name[i]) == "agents.md"@[i]
    &&& name != "AGENTS.md"@
}

fn same_ignoring_case(c: char, t: char) -> (res: bool)
    ensures
        res == (ascii_lower(c) == t),
{
    if 'A' <= c && c <= 'Z' {
        (c as u32) + 32 == t as u32
    } else {
        c == t
    }
}

fn is_agents_variant(name: &str) -> (res: bool)
    ensures
        res == agents_case_variant(name@),
{
    proof {
        reveal_strlit("agents.md");
    }
    let target = "agents.md";
    if name.unicode_len() != 9 {
        return false;
    }
    let mut i: usize = 0;
    while i < 9
        invariant
            i <= 9,
            name@.len() == 9,
            target@ == "agents.md"@,
            target@.len() == 9,
            forall|j: int| 0 <= j < i ==> ascii_lower(#[trigger] name@[j]) == "agents.md"@[j],
        decreases 9 - i,
    {
        if !same_ignoring_case(name.get_char(i), target.get_char(i)) {
            return false;
        }
        i = i + 1;
    }
    !text_eq(name, "AGENTS.md")
}

/// A folder may not hold `AGENTS.md` under another case: `409
/// AGENTS_CASE_CONFLICT`.
pub fn check_agents_case(names: &Vec<String>) -> (res: Result<(), AppError>)
    ensures
        (exists|i: int| 0 <= i < names@.len() && agents_case_variant((#[trigger] names@[i])@)) ==> (res matches Err(e)
            && is_rejection(e, 409, "AGENTS_CASE_CONFLICT"@)),
        !(exists|i: int| 0 <= i < names@.len() && agents_case_variant((#[trigger] names@[i])@)) ==> res is Ok,
{
    let mut i: usize = 0;
    while i < names.len()
        invariant
            i <= names.len(),
            forall|j: int| 0 <= j < i ==> !agents_case_variant((#[trigger] names@[j])@),
        decreases names.len() - i,
    {
        if is_agents_variant(names[i].as_str()) {
            return Err(AppError::reject(409, "AGENTS_CASE_CONFLICT"));
        }
        i = i + 1;
    }
    Ok(())
}

/// Whether `needle` occurs in `hay`.
pub open spec fn occurs(hay: Seq<u8>, needle: Seq<u8>) -> bool {
    exists|i: int| 0 <= i && i + needle.len() <= hay.len() && #[trigger] hay.subrange(i, i + needle.len()) == needle
}

fn find(hay: &[u8], needle: &[u8]) -> (res: bool)
    ensures
        res == occurs(hay@, needle@),
{
    if needle.len() > hay.len() {
        proof {
            assert forall|i: int| 0 <= i && i + needle@.len() <= hay@.len() implies #[trigger] hay@.subrange(i, i + needle@.len()) != needle@ by {
            }
        }
        return false;
    }
    let mut i: usize = 0;
    while i <= hay.len() - needle.len()
        invariant
            needle.len() <= hay.len(),
            i <= hay.len() - needle.len() + 1,
            forall|k: int| 0 <= k < i ==> #[trigger] hay@.subrange(k, k + needle@.len()) != needle@,
        decreases hay.len() - i,
    {
        let mut j: usize = 0;
        let mut matched = true;
        while j < needle.len()
            invariant
                i + needle.len() <= hay.len(),
                j <= needle.len(),
                matched == forall|m: int| 0 <= m < j ==> hay@[i + m] == needle@[m],
            decreases needle.len() - j,
        {
            if hay[i + j] != needle[j] {
                matched = false;
            }
            j = j + 1;
        }
        if matched {
            assert(hay@.subrange(i as int, i + needle@.len()) =~= needle@);
            return true;
        }
        proof {
            let m = choose|m: int| 0 <= m < needle.len() && hay@[i + m] != needle@[m];
            assert(hay@.subrange(i as int, i + needle@.len())[m] != needle@[m]);
        }
        i = i + 1;
    }
    proof {
        assert forall|k: int| 0 <= k && k + needle@.len() <= hay@.len() implies #[trigger] hay@.subrange(k, k + needle@.len()) != needle@ by {
            assert(k < i);
        }
    }
    false
}

/// The `AGENTS.md` that registration writes. A new file is the managed
/// block; an existing one must be UTF-8 (`409 AGENTS_INVALID_UTF8`); one
/// that opens a managed block must hold this block unchanged (`409
/// MANAGED_BLOCK_CONFLICT`) and stays as it is; any other gets the block
/// appended after a blank line.
pub open spec fn agents_spec(existing: Option<Seq<u8>>, block: Seq<u8>) -> Result<Seq<u8>, Seq<char>> {
    match existing {
        None => Ok(block),
        Some(b) => if !valid_utf8(b) {
            Err("AGENTS_INVALID_UTF8"@)
        } else if occurs(b, marker_bytes()) {
            if occurs(b, block) { Ok(b) } else { Err("MANAGED_BLOCK_CONFLICT"@) }
        } else {
            Ok(b + seq![10u8, 10u8] + block)
        },
    }
}

/// The bytes of `<!-- local-projects:begin`.
pub open spec fn marker_bytes() -> Seq<u8> {
    seq![60u8, 33u8, 45u8, 45u8, 32u8, 108u8, 111u8, 99u8, 97u8, 108u8, 45u8, 112u8, 114u8, 111u8, 106u8, 101u8, 99u8, 116u8, 115u8, 58u8, 98u8, 101u8, 103u8, 105u8, 110u8]
}

pub fn agents_content(existing: Option<&[u8]>, block: &[u8]) -> (res: Result<Vec<u8>, AppError>)
    ensures
        match agents_spec(match existing {
            Some(b) => Some(b@),
            None => None,
        }, block@) {
            Ok(bytes) => res matches Ok(v) && v@ == bytes,
            Err(code) => res matches Err(e) && is_rejection(e, 409, code),
        },
{
    let marker: [u8; 25] = [60u8, 33u8, 45u8, 45u8, 32u8, 108u8, 111u8, 99u8, 97u8, 108u8, 45u8, 112u8, 114u8, 111u8, 106u8, 101u8, 99u8, 116u8, 115u8, 58u8, 98u8, 101u8, 103u8, 105u8, 110u8];
    assert(marker@ =~= marker_bytes());
    match existing {
        None => Ok(to_vec(block)),
        Some(b) => {
            if utf8_text(b).is_none() {
                return Err(AppError::reject(409, "AGENTS_INVALID_UTF8"));
            }
            if find(b, &marker) {
                if find(b, block) {
                    Ok(to_vec(b))
                } else {
                    Err(AppError::reject(409, "MANAGED_BLOCK_CONFLICT"))
                }
            } else {
                let mut out = to_vec(b);
                out.push(10u8);
                out.push(10u8);
                let mut i: usize = 0;
                let ghost head = out@;
                while i < block.len()
                    invariant
                        i <= block.len(),
                        out@ == head + block@.take(i as int),
                    decreases block.len() - i,
                {
                    out.push(block[i]);
                    assert(block@.take(i + 1) =~= block@.take(i as int).push(block@[i as int]));
                    i = i + 1;
                }
                assert(block@.take(i as int) =~= block@);
                assert(head =~= b@ + seq![10u8, 10u8]);
                Ok(out)
            }
        },
    }
}

fn to_vec(b: &[u8]) -> (res: Vec<u8>)
    ensures
        res@ == b@,
{
    let mut out: Vec<u8> = Vec::new();
    let mut i: usize = 0;
    while i < b.len()
        invariant
            i <= b.len(),
            out@ == b@.take(i as int),
        decreases b.len() - i,
    {
        out.push(b[i]);
        assert(b@.take(i + 1) =~= b@.take(i as int).push(b@[i as int]));
        i = i + 1;
    }
    assert(b@.take(i as int) =~= b@);
    out
}

/// The lines of a text, split at line feeds.
pub open spec fn split_lines(s: Seq<char>) -> Seq<Seq<char>>
    decreases s.len(),
{
    if s.len() == 0 {
        seq![seq![]]
    } else {
        let prev = split_lines(s.drop_last());
        if s.last() == '\n' {
            prev.push(seq![])
        } else {
            prev.update(prev.len() - 1, prev.last().push(s.last()))
        }
    }
}

/// A line that, without the white space around it, ignores the metadata
/// folder: `.project/` or `/.project/`.
pub open spec fn ignores_meta(line: Seq<char>) -> bool {
    exists|a: int, b: int| 0 <= a <= b <= line.len()
        && (forall|k: int| 0 <= k < a ==> is_space(#[trigger] line[k]))
        && (forall|k: int| b <= k < line.len() ==> is_space(#[trigger] line[k]))
        && (line.subrange(a, b) == ".project/"@ || line.subrange(a, b) == "/.project/"@)
}

/// The `.gitignore` that a private registration writes: an existing file
/// must be UTF-8 (`409 GITIGNORE_INVALID_UTF8`); unless some line already
/// ignores `.project/`, the rule is appended under a comment.
pub open spec fn gitignore_spec(existing: Seq<u8>) -> Result<Seq<u8>, Seq<char>> {
    if !valid_utf8(existing) {
        Err("GITIGNORE_INVALID_UTF8"@)
    } else if exists|i: int| 0 <= i < split_lines(decode_utf8(existing)).len() && ignores_meta(#[trigger] split_lines(decode_utf8(existing))[i]) {
        Ok(existing)
    } else {
        Ok(existing + private_rule())
    }
}

/// The bytes of `\n# Local Projects private planning data\n.project/\n`.
pub open spec fn private_rule() -> Seq<u8> {
    vstd::utf8::encode_utf8("\n# Local Projects private planning data\n.project/\n"@)
}

/// Whether one line ignores the metadata folder.
fn line_ignores_meta(line: &str) -> (res: bool)
    ensures
        res == ignores_meta(line@),
{
    proof {
        reveal_strlit(".project/");
        reveal_strlit("/.project/");
    }
    let n = line.unicode_len();
    let mut a: usize = 0;
    while a < n && space_char(line.get_char(a))
        invariant
            a <= n,
            n == line@.len(),
            forall|k: int| 0 <= k < a ==> is_space(#[trigger] line@[k]),
        decreases n - a,
    {
        a = a + 1;
    }
    let mut b: usize = n;
    while b > a && space_char(line.get_char(b - 1))
        invariant
            a <= b <= n,
            n == line@.len(),
            forall|k: int| b <= k < n ==> is_space(#[trigger] line@[k]),
        decreases b,
    {
        b = b - 1;
    }
    let core = line.substring_char(a, b);
    let hit = text_eq(core, ".project/") || text_eq(core, "/.project/");
    proof {
        if !hit {
            assert forall|x: int, y: int| 0 <= x <= y <= line@.len()
                && (forall|k: int| 0 <= k < x ==> is_space(#[trigger] line@[k]))
                && (forall|k: int| y <= k < line@.len() ==> is_space(#[trigger] line@[k]))
                implies !(line@.subrange(x, y) == ".project/"@ || line@.subrange(x, y) == "/.project/"@) by {
                if line@.subrange(x, y) == ".project/"@ || line@.subrange(x, y) == "/.project/"@ {
                    let t = line@.subrange(x, y);
                    assert(!is_space(t[0]));
                    assert(!is_space(t[t.len() - 1]));
                    assert(line@[x] == t[0]);
                    assert(line@[y - 1] == t[t.len() - 1]);
                    if x < a {
                        assert(is_space(line@[x]));
                    }
                    if x > a {
                        if a < n {
                            assert(!is_space(line@[a as int]));
                            assert(is_space(line@[a as int]));
                        }
                    }
                    if y > b {
                        assert(is_space(line@[y - 1]));
                    }
                    if y < b {
                        assert(!is_space(line@[b - 1]));
                        assert(is_space(line@[b - 1]));
                    }
                    assert(core@ == t);
                }
            }
        }
    }
    hit
}

/// Computes the `.gitignore` of a private registration from the file's
/// current bytes, if it exists.
pub fn gitignore_content(existing: Option<&[u8]>) -> (res: Result<Vec<u8>, AppError>)
    ensures
        match gitignore_spec(match existing {
            Some(b) => b@,
            None => Seq::<u8>::empty(),
        }) {
            Ok(bytes) => res matches Ok(v) && v@ == bytes,
            Err(code) => res matches Err(e) && is_rejection(e, 409, code),
        },
{
    let empty: [u8; 0] = [];
    let bytes: &[u8] = match existing {
        Some(b) => b,
        None => &empty,
    };
    assert(bytes@ == (match existing {
        Some(b) => b@,
        None => Seq::<u8>::empty(),
    })) by {
        if existing is None {
            assert(empty@ =~= Seq::<u8>::empty());
        }
    }
    let text = match utf8_text(bytes) {
        Some(t) => t,
        None => return Err(AppError::reject(409, "GITIGNORE_INVALID_UTF8")),
    };
    let ghost all = split_lines(text@);
    let n = text.unicode_len();
    let ghost mut done: Seq<Seq<char>> = seq![];
    let mut start: usize = 0;
    let mut i: usize = 0;
    let mut found = false;
    assert(text@.take(0) =~= Seq::<char>::empty());
    assert(text@.subrange(0, 0) =~= Seq::<char>::empty());
    while i < n
        invariant
            i <= n,
            start <= i,
            n == text@.len(),
            split_lines(text@.take(i as int)) == done.push(text@.subrange(start as int, i as int)),
            found == exists|j: int| 0 <= j < done.len() && ignores_meta(#[trigger] done[j]),
        decreases n - i,
    {
        let c = text.as_str().get_char(i);
        assert(text@.take(i + 1).drop_last() =~= text@.take(i as int));
        assert(text@.take(i + 1).last() == c);
        if c == '\n' {
            let line = text.as_str().substring_char(start, i);
            let hit = line_ignores_meta(line);
            proof {
                let d2 = done.push(line@);
                if hit {
                    assert(ignores_meta(d2[done.len() as int]));
                }
                if found {
                    let j = choose|j: int| 0 <= j < done.len() && ignores_meta(#[trigger] done[j]);
                    assert(d2[j] == done[j]);
                }
                if !found && !hit {
                    assert forall|j: int| 0 <= j < d2.len() implies !ignores_meta(#[trigger] d2[j]) by {
                        if j < done.len() {
                            assert(d2[j] == done[j]);
                        }
                    }
                }
                done = d2;
                assert(text@.subrange((i + 1) as int, (i + 1) as int) =~= Seq::<char>::empty());
            }
            found = found || hit;
            start = i + 1;
        } else {
            proof {
                assert(c == text@[i as int]);
                assert(text@.subrange(start as int, i + 1) =~= text@.subrange(start as int, i as int).push(c));
                let prev = done.push(text@.subrange(start as int, i as int));
                assert(prev.update(prev.len() - 1, prev.last().push(c)) =~= done.push(text@.subrange(start as int, i + 1)));
            }
        }
        i = i + 1;
    }
    assert(text@.take(n as int) =~= text@);
    let last = text.as_str().substring_char(start, n);
    let hit = line_ignores_meta(last);
    proof {
        let d2 = done.push(last@);
        assert(all == d2);
        if hit {
            assert(ignores_meta(d2[done.len() as int]));
        }
        if found {
            let j = choose|j: int| 0 <= j < done.len() && ignores_meta(#[trigger] done[j]);
            assert(d2[j] == done[j]);
        }
        if !found && !hit {
            assert forall|j: int| 0 <= j < d2.len() implies !ignores_meta(#[trigger] d2[j]) by {
                if j < done.len() {
                    assert(d2[j] == done[j]);
                }
            }
        }
    }
    let mut out = to_vec(bytes);
    if !(found || hit) {
        let rule = "\n# Local Projects private planning data\n.project/\n".as_bytes();
        let ghost head = out@;
        let mut k: usize = 0;
        while k < rule.len()
            invariant
                k <= rule.len(),
                out@ == head + rule@.take(k as int),
            decreases rule.len() - k,
        {
            out.push(rule[k]);
            assert(rule@.take(k + 1) =~= rule@.take(k as int).push(rule@[k as int]));
            k = k + 1;
        }
        assert(rule@.take(k as int) =~= rule@);
    }
    Ok(out)
}

} // verus!
