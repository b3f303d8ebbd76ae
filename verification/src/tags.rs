//! Tag vocabulary: bounded issue lists, how a relabel preview rewrites one
//! card's labels, which tag names a preview accepts, and which card files a
//! scan reads.
use crate::history::{insert_sorted, strictly_sorted};
use crate::ids::{canonical_uuid, canonical_uuid_spec};
use crate::text::{is_space, space_char};
use crate::reply::{is_rejection, AppError};
use crate::text::{lemma_text_lt_total, lemma_text_lt_transitive, text_eq, text_less, text_lt};
use vstd::prelude::*;

verus! {

/// Most issues listed in one response.
pub const MAX_ISSUES: usize = 500;

/// Most card files one scan reads.
pub const MAX_SCANNED_CARDS: usize = 50_000;

/// Most changes one preview lists.
pub const MAX_PREVIEW_CHANGES: usize = 500;

/// One source issue: where, if known, and what.
pub struct Issue {
    pub project_id: Option<String>,
    pub card_id: Option<String>,
    pub message: String,
}

/// Issues listed up to a bound; the rest are only counted.
pub struct Issues {
    pub items: Vec<Issue>,
    pub omitted: usize,
}

pub open spec fn issue_view(i: Issue) -> (Option<Seq<char>>, Option<Seq<char>>, Seq<char>) {
    (
        match i.project_id {
            Some(p) => Some(p@),
            None => None,
        },
        match i.card_id {
            Some(c) => Some(c@),
            None => None,
        },
        i.message@,
    )
}

pub open spec fn opt_text(o: Option<&str>) -> Option<Seq<char>> {
    match o {
        Some(s) => Some(s@),
        None => None,
    }
}

/// The decimal digits of `n`.
pub open spec fn decimal(n: nat) -> Seq<char>
    decreases n,
{
    if n < 10 {
        seq![(48 + n) as char]
    } else {
        decimal(n / 10).push((48 + n % 10) as char)
    }
}

/// Writes `n` in decimal, as `format!("{}", n)` does.
pub fn decimal_text(n: usize) -> (res: String)
    ensures
        res@ == decimal(n as nat),
    decreases n,
{
    let digit: u8 = (n % 10) as u8;
    let bytes: [u8; 1] = [48u8 + digit];
    proof {
        crate::text::lemma_ascii_encoding(bytes@);
    }
    let last = crate::text::ascii_string(&bytes);
    assert(last@ =~= seq![(48 + n % 10) as char]) by {
        assert(last@[0] == (48u8 + digit) as char);
    }
    if n < 10 {
        last
    } else {
        let mut head = decimal_text(n / 10);
        head.append(last.as_str());
        head
    }
}

impl Issues {
    pub fn new() -> (res: Issues)
        ensures
            res.items@.len() == 0,
            res.omitted == 0,
    {
        Issues { items: Vec::new(), omitted: 0 }
    }

    /// Lists an issue while fewer than 500 are listed; counts it otherwise.
    pub fn add(&mut self, project: Option<&str>, card: Option<&str>, message: &str)
        requires
            old(self).omitted < usize::MAX,
        ensures
            old(self).items@.len() < MAX_ISSUES ==> final(self).items@.map_values(|i: Issue| issue_view(i))
                == old(self).items@.map_values(|i: Issue| issue_view(i)).push((opt_text(project), opt_text(card), message@))
                && final(self).omitted == old(self).omitted,
            old(self).items@.len() >= MAX_ISSUES ==> final(self).items@.map_values(|i: Issue| issue_view(i))
                == old(self).items@.map_values(|i: Issue| issue_view(i)) && final(self).omitted == old(self).omitted + 1,
    {
        if self.items.len() >= MAX_ISSUES {
            self.omitted = self.omitted + 1;
            return;
        }
        let ghost before = self.items@.map_values(|i: Issue| issue_view(i));
        let issue = Issue {
            project_id: match project {
                Some(p) => Some(p.to_owned()),
                None => None,
            },
            card_id: match card {
                Some(c) => Some(c.to_owned()),
                None => None,
            },
            message: message.to_owned(),
        };
        self.items.push(issue);
        assert(self.items@.map_values(|i: Issue| issue_view(i)) =~= before.push((opt_text(project), opt_text(card), message@)));
    }

    /// The listed issues, followed by a note of how many were omitted, if
    /// any were.
    pub fn finish(self) -> (res: Vec<Issue>)
        ensures
            self.omitted == 0 ==> res@.map_values(|i: Issue| issue_view(i)) == self.items@.map_values(|i: Issue| issue_view(i)),
            self.omitted > 0 ==> res@.map_values(|i: Issue| issue_view(i)) == self.items@.map_values(|i: Issue| issue_view(i)).push(
                (None, None, decimal(self.omitted as nat) + " additional source issues were omitted from this response."@),
            ),
    {
        let Issues { items, omitted } = self;
        let mut items = items;
        if omitted > 0 {
            let ghost before = items@.map_values(|i: Issue| issue_view(i));
            let mut message = decimal_text(omitted);
            message.append(" additional source issues were omitted from this response.");
            items.push(Issue { project_id: None, card_id: None, message });
            assert(items@.map_values(|i: Issue| issue_view(i)) =~= before.push(
                (None, None, decimal(omitted as nat) + " additional source issues were omitted from this response."@),
            ));
        }
        items
    }
}

/// Labels with `source` renamed: other labels stay; `source` disappears
/// when `drop`, and becomes `target` otherwise.
pub open spec fn relabel_with(labels: Seq<Seq<char>>, source: Seq<char>, target: Seq<char>, drop: bool) -> Seq<Seq<char>>
    decreases labels.len(),
{
    if labels.len() == 0 {
        seq![]
    } else {
        let rest = relabel_with(labels.drop_last(), source, target, drop);
        if labels.last() != source {
            rest.push(labels.last())
        } else if drop {
            rest
        } else {
            rest.push(target)
        }
    }
}

/// A card's labels after renaming `source` to `target`: other labels stay;
/// `source` becomes `target`, or disappears when the card has `target`
/// already.
pub open spec fn relabel_spec(labels: Seq<Seq<char>>, source: Seq<char>, target: Seq<char>) -> Seq<Seq<char>> {
    relabel_with(labels, source, target, labels.contains(target))
}

pub open spec fn texts(v: Seq<String>) -> Seq<Seq<char>> {
    v.map_values(|s: String| s@)
}

fn contains_text(list: &Vec<String>, value: &str) -> (res: bool)
    ensures
        res == texts(list@).contains(value@),
{
    let ghost v = texts(list@);
    let mut i: usize = 0;
    while i < list.len()
        invariant
            i <= list.len(),
            v == texts(list@),
            forall|j: int| 0 <= j < i ==> v[j] != value@,
        decreases list.len() - i,
    {
        if text_eq(list[i].as_str(), value) {
            assert(v[i as int] == value@);
            return true;
        }
        i = i + 1;
    }
    false
}

/// Rewrites one card's labels for a relabel preview.
pub fn relabel(labels: &Vec<String>, source: &str, target: &str) -> (res: Vec<String>)
    ensures
        texts(res@) == relabel_spec(texts(labels@), source@, target@),
{
    let ghost l = texts(labels@);
    let has_target = contains_text(labels, target);
    let mut out: Vec<String> = Vec::new();
    let mut i: usize = 0;
    while i < labels.len()
        invariant
            i <= labels.len(),
            l == texts(labels@),
            has_target == l.contains(target@),
            texts(out@) == relabel_with(l.take(i as int), source@, target@, has_target),
        decreases labels.len() - i,
    {
        let ghost t = l.take(i + 1);
        assert(t.drop_last() =~= l.take(i as int));
        assert(t.last() == labels@[i as int]@);
        let ghost before = texts(out@);
        if !text_eq(labels[i].as_str(), source) {
            out.push(labels[i].clone());
            assert(texts(out@) =~= before.push(l[i as int]));
        } else if !has_target {
            out.push(target.to_owned());
            assert(texts(out@) =~= before.push(target@));
        }
        i = i + 1;
    }
    assert(l.take(i as int) =~= l);
    out
}

/// A rename needs two different names, and the new name holds no NUL:
/// `422 TAG_NAMES_IDENTICAL` and `422 TAG_NAME_INVALID`.
pub fn check_rename(source: &str, target: &str) -> (res: Result<(), AppError>)
    ensures
        source@ == target@ ==> (res matches Err(e) && is_rejection(e, 422, "TAG_NAMES_IDENTICAL"@)),
        source@ != target@ && target@.contains('\0') ==> (res matches Err(e) && is_rejection(e, 422, "TAG_NAME_INVALID"@)),
        source@ != target@ && !target@.contains('\0') ==> res is Ok,
{
    if text_eq(source, target) {
        return Err(AppError::reject(422, "TAG_NAMES_IDENTICAL"));
    }
    let n = target.unicode_len();
    let mut i: usize = 0;
    while i < n
        invariant
            i <= n,
            n == target@.len(),
            source@ != target@,
            forall|j: int| 0 <= j < i ==> target@[j] != '\0',
        decreases n - i,
    {
        if target.get_char(i) == '\0' {
            assert(target@[i as int] == '\0');
            return Err(AppError::reject(422, "TAG_NAME_INVALID"));
        }
        i = i + 1;
    }
    assert(!target@.contains('\0'));
    Ok(())
}

/// A name that `str::trim` would change or empty: empty, or white space at
/// either end.
pub open spec fn untrimmed(name: Seq<char>) -> bool {
    name.len() == 0 || is_space(name[0]) || is_space(name.last())
}

/// A new tag name that no card or vocabulary entry uses yet must be trimmed
/// and not empty: `422 TAG_NAME_WHITESPACE`.
pub fn check_new_name(target: &str, known: bool) -> (res: Result<(), AppError>)
    ensures
        !known && untrimmed(target@) ==> (res matches Err(e) && is_rejection(e, 422, "TAG_NAME_WHITESPACE"@)),
        !(!known && untrimmed(target@)) ==> res is Ok,
{
    if known {
        return Ok(());
    }
    let n = target.unicode_len();
    if n == 0 || space_char(target.get_char(0)) || space_char(target.get_char(n - 1)) {
        Err(AppError::reject(422, "TAG_NAME_WHITESPACE"))
    } else {
        Ok(())
    }
}

/// What a scan does with one file of a project's card folder.
pub enum ScanEntry {
    /// Not a Markdown file.
    Skip,
    /// The scan has read as many cards as it may.
    Limit,
    /// A card file whose name is not a canonical version 4 ID.
    InvalidId,
    /// A card to read, by ID.
    Card(String),
}

pub open spec fn md_stem(name: Seq<char>) -> Option<Seq<char>> {
    if name.len() >= 3 && name.subrange(name.len() - 3, name.len() as int) == ".md"@ {
        Some(name.subrange(0, name.len() - 3))
    } else {
        None
    }
}

/// The ID of a Markdown file: its name without `.md`.
pub fn markdown_stem(name: &str) -> (res: Option<&str>)
    ensures
        match md_stem(name@) {
            Some(stem) => res matches Some(s) && s@ == stem,
            None => res is None,
        },
{
    proof {
        reveal_strlit(".md");
    }
    let n = name.unicode_len();
    if n < 3 {
        return None;
    }
    if text_eq(name.substring_char(n - 3, n), ".md") {
        Some(name.substring_char(0, n - 3))
    } else {
        None
    }
}

/// Classifies one file of a card folder, with `scanned` cards read so far.
pub fn scan_entry(name: &str, scanned: usize) -> (res: ScanEntry)
    ensures
        match md_stem(name@) {
            None => res is Skip,
            Some(stem) => if scanned >= MAX_SCANNED_CARDS {
                res is Limit
            } else if !canonical_uuid_spec(stem, 4) {
                res is InvalidId
            } else {
                res matches ScanEntry::Card(id) && id@ == stem
            },
        },
{
    match markdown_stem(name) {
        None => ScanEntry::Skip,
        Some(stem) => {
            if scanned >= MAX_SCANNED_CARDS {
                ScanEntry::Limit
            } else if !canonical_uuid(stem, 4) {
                ScanEntry::InvalidId
            } else {
                ScanEntry::Card(stem.to_owned())
            }
        },
    }
}

proof fn lemma_relabel_without_source(labels: Seq<Seq<char>>, source: Seq<char>, target: Seq<char>, drop: bool)
    requires
        source != target,
    ensures
        !relabel_with(labels, source, target, drop).contains(source),
    decreases labels.len(),
{
    if labels.len() > 0 {
        lemma_relabel_without_source(labels.drop_last(), source, target, drop);
        let rest = relabel_with(labels.drop_last(), source, target, drop);
        let out = relabel_with(labels, source, target, drop);
        assert forall|i: int| 0 <= i < out.len() implies out[i] != source by {
            if i < rest.len() {
                assert(out[i] == rest[i]);
                assert(rest.contains(rest[i]));
            }
        }
    }
}

proof fn lemma_relabel_identity(labels: Seq<Seq<char>>, source: Seq<char>, target: Seq<char>, drop: bool)
    requires
        !labels.contains(source),
    ensures
        relabel_with(labels, source, target, drop) == labels,
    decreases labels.len(),
{
    if labels.len() > 0 {
        let w = labels.drop_last();
        assert(!w.contains(source)) by {
            if w.contains(source) {
                let i = choose|i: int| 0 <= i < w.len() && w[i] == source;
                assert(labels[i] == source);
            }
        }
        lemma_relabel_identity(w, source, target, drop);
        assert(labels.last() != source) by {
            assert(labels[labels.len() - 1] == labels.last());
        }
        assert(w.push(labels.last()) =~= labels);
    }
}

/// Renaming is idempotent: once a card's labels are rewritten, rewriting
/// them again for the same rename changes nothing.
pub proof fn lemma_relabel_idempotent(labels: Seq<Seq<char>>, source: Seq<char>, target: Seq<char>)
    requires
        source != target,
    ensures
        relabel_spec(relabel_spec(labels, source, target), source, target) == relabel_spec(labels, source, target),
{
    let once = relabel_spec(labels, source, target);
    lemma_relabel_without_source(labels, source, target, labels.contains(target));
    lemma_relabel_identity(once, source, target, once.contains(target));
}

/// What a relabel preview has gathered from the cards scanned so far:
/// whether the new name is in use, how many changes it lists, whether more
/// were left out, and the archived projects among the changed cards.
pub struct TagPreview {
    known: bool,
    changes: usize,
    limited: bool,
    archived: Vec<String>,
}

impl TagPreview {
    #[verifier::type_invariant]
    spec fn sorted_archive(self) -> bool {
        &&& strictly_sorted(crate::history::texts(self.archived@))
        &&& self.changes <= MAX_PREVIEW_CHANGES
    }

    pub closed spec fn target_known(self) -> bool {
        self.known
    }

    pub closed spec fn change_count(self) -> nat {
        self.changes as nat
    }

    pub closed spec fn is_limited(self) -> bool {
        self.limited
    }

    pub closed spec fn archived_projects(self) -> Set<Seq<char>> {
        crate::history::texts(self.archived@).to_set()
    }

    /// A preview before any card is scanned; `known` is whether the
    /// vocabulary holds the new name.
    pub fn new(known: bool) -> (res: TagPreview)
        ensures
            res.target_known() == known,
            res.change_count() == 0,
            !res.is_limited(),
            res.archived_projects() == Set::<Seq<char>>::empty(),
    {
        let res = TagPreview { known, changes: 0, limited: false, archived: Vec::new() };
        assert(crate::history::texts(res.archived@).to_set() =~= Set::<Seq<char>>::empty());
        res
    }

    /// Scans one card. A card holding the new name makes it known. A card
    /// without the old name changes nothing else. Otherwise its project is
    /// noted when archived, and its rewritten labels are the change it
    /// contributes, unless 500 changes are listed already.
    pub fn visit(&mut self, source: &str, target: &str, project_id: &str, project_archived: bool, labels: &Vec<String>) -> (res: Option<Vec<String>>)
        ensures
            final(self).target_known() == (old(self).target_known() || texts(labels@).contains(target@)),
            !texts(labels@).contains(source@) ==> res is None && final(self).change_count() == old(self).change_count()
                && final(self).is_limited() == old(self).is_limited() && final(self).archived_projects() == old(self).archived_projects(),
            texts(labels@).contains(source@) ==> {
                &&& final(self).archived_projects() == if project_archived {
                    old(self).archived_projects().insert(project_id@)
                } else {
                    old(self).archived_projects()
                }
                &&& if old(self).change_count() >= MAX_PREVIEW_CHANGES {
                    res is None && final(self).is_limited() && final(self).change_count() == old(self).change_count()
                } else {
                    &&& res matches Some(l) && texts(l@) == relabel_spec(texts(labels@), source@, target@)
                    &&& final(self).change_count() == old(self).change_count() + 1
                    &&& final(self).is_limited() == old(self).is_limited()
                }
            },
    {
        proof {
            use_type_invariant(&*self);
        }
        if contains_text(labels, target) {
            self.known = true;
        }
        if !contains_text(labels, source) {
            return None;
        }
        if project_archived {
            let mut archived: Vec<String> = Vec::new();
            std::mem::swap(&mut archived, &mut self.archived);
            insert_sorted(&mut archived, project_id);
            self.archived = archived;
        }
        if self.changes >= MAX_PREVIEW_CHANGES {
            self.limited = true;
            return None;
        }
        self.changes = self.changes + 1;
        Some(relabel(labels, source, target))
    }

    /// The archived projects among the changed cards, in byte order.
    pub fn archived_list(&self) -> (res: Vec<String>)
        ensures
            crate::history::texts(res@).to_set() == self.archived_projects(),
            strictly_sorted(crate::history::texts(res@)),
    {
        proof {
            use_type_invariant(self);
        }
        let mut out: Vec<String> = Vec::new();
        let mut i: usize = 0;
        while i < self.archived.len()
            invariant
                i <= self.archived@.len(),
                crate::history::texts(out@) == crate::history::texts(self.archived@).take(i as int),
            decreases self.archived@.len() - i,
        {
            let ghost before = crate::history::texts(out@);
            out.push(self.archived[i].clone());
            assert(crate::history::texts(out@) =~= before.push(self.archived@[i as int]@));
            assert(crate::history::texts(self.archived@).take(i + 1) =~= crate::history::texts(self.archived@).take(i as int).push(self.archived@[i as int]@));
            i = i + 1;
        }
        assert(crate::history::texts(self.archived@).take(i as int) =~= crate::history::texts(self.archived@));
        out
    }

    pub fn known(&self) -> (res: bool)
        ensures
            res == self.target_known(),
    {
        self.known
    }

    pub fn limited(&self) -> (res: bool)
        ensures
            res == self.is_limited(),
    {
        self.limited
    }
}

/// Whether registration `i` is scanned before registration `j`: by project
/// ID in byte order, and in registration order among equal IDs.
pub open spec fn scanned_before(ids: Seq<Seq<char>>, i: int, j: int) -> bool {
    text_lt(ids[i], ids[j]) || (ids[i] == ids[j] && i < j)
}

/// The order in which a tag scan visits the registered projects: every
/// registration once, sorted stably by project ID.
pub fn scan_order(ids: &Vec<String>) -> (order: Vec<usize>)
    ensures
        order@.len() == ids@.len(),
        forall|a: int| 0 <= a < order@.len() ==> (#[trigger] order@[a]) < ids@.len(),
        forall|k: usize| (k as int) < ids@.len() ==> #[trigger] order@.contains(k),
        forall|a: int, b: int|
            #![trigger order@[a], order@[b]]
            0 <= a < b < order@.len() ==> scanned_before(texts(ids@), order@[a] as int, order@[b] as int),
{
    let ghost keys = texts(ids@);
    let mut order: Vec<usize> = Vec::new();
    let mut k: usize = 0;
    while k < ids.len()
        invariant
            k <= ids@.len(),
            keys == texts(ids@),
            order@.len() == k,
            forall|a: int| 0 <= a < order@.len() ==> (#[trigger] order@[a]) < k,
            forall|m: usize| m < k ==> #[trigger] order@.contains(m),
            forall|a: int, b: int|
                #![trigger order@[a], order@[b]]
                0 <= a < b < order@.len() ==> scanned_before(keys, order@[a] as int, order@[b] as int),
        decreases ids@.len() - k,
    {
        let mut p: usize = 0;
        while p < order.len() && !text_less(ids[k].as_str(), ids[order[p]].as_str())
            invariant
                p <= order@.len(),
                k < ids@.len(),
                keys == texts(ids@),
                forall|a: int| 0 <= a < order@.len() ==> (#[trigger] order@[a]) < k,
                forall|a: int| 0 <= a < p ==> !text_lt(keys[k as int], keys[#[trigger] order@[a] as int]),
            decreases order@.len() - p,
        {
            p = p + 1;
        }
        let ghost s0 = order@;
        order.insert(p, k);
        proof {
            let s1 = order@;
            assert(s1 =~= s0.insert(p as int, k));
            assert forall|a: int| 0 <= a < s1.len() implies (#[trigger] s1[a]) < k + 1 by {
                if a > p {
                    assert(s1[a] == s0[a - 1]);
                } else if a < p {
                    assert(s1[a] == s0[a]);
                }
            }
            assert forall|m: usize| m < k + 1 implies #[trigger] s1.contains(m) by {
                if m == k {
                    assert(s1[p as int] == k);
                } else {
                    assert(s0.contains(m));
                    let a = choose|a: int| 0 <= a < s0.len() && s0[a] == m;
                    if a < p {
                        assert(s1[a] == m);
                    } else {
                        assert(s1[a + 1] == m);
                    }
                }
            }
            assert forall|e: int| 0 <= e < s0.len() && e < p implies scanned_before(keys, #[trigger] s0[e] as int, k as int) by {
                lemma_text_lt_total(keys[s0[e] as int], keys[k as int]);
            }
            assert forall|e: int| p <= e < s0.len() implies scanned_before(keys, k as int, #[trigger] s0[e] as int) by {
                let first = s0[p as int] as int;
                assert(text_lt(keys[k as int], keys[first]));
                if e > p {
                    assert(scanned_before(keys, first, s0[e] as int));
                    if text_lt(keys[first], keys[s0[e] as int]) {
                        lemma_text_lt_transitive(keys[k as int], keys[first], keys[s0[e] as int]);
                    }
                }
            }
            assert forall|a: int, b: int|
                #![trigger s1[a], s1[b]]
                0 <= a < b < s1.len() implies scanned_before(keys, s1[a] as int, s1[b] as int) by {
                if b < p {
                    assert(s1[a] == s0[a] && s1[b] == s0[b]);
                } else if b == p {
                    assert(s1[a] == s0[a]);
                } else if a < p {
                    assert(s1[a] == s0[a] && s1[b] == s0[b - 1]);
                } else if a == p {
                    assert(s1[b] == s0[b - 1]);
                } else {
                    assert(s1[a] == s0[a - 1] && s1[b] == s0[b - 1]);
                }
            }
        }
        k = k + 1;
    }
    order
}

} // verus!
