//! The tag catalog: every vocabulary name and every label found on cards,
//! in byte order, with how often each is used and by which projects.
use crate::text::{lemma_text_lt_irreflexive, lemma_text_lt_total, lemma_text_lt_transitive, text_eq, text_less, text_lt};
use crate::history::{insert_sorted, strictly_sorted, texts};
use vstd::prelude::*;

verus! {

/// Most distinct names the catalog holds; labels beyond it are left out.
pub const MAX_CATALOG_NAMES: usize = 10_000;

/// A project's use of a tag: the project's name as first seen, and how many
/// of its card labels carry the tag.
pub struct ProjectUsage {
    pub project_id: String,
    pub project_name: String,
    pub count: usize,
}

/// A tag: whether the vocabulary holds it, how many card labels carry it,
/// and its projects in byte order of their IDs.
pub struct TagUsage {
    pub name: String,
    pub managed: bool,
    pub usage: usize,
    pub projects: Vec<ProjectUsage>,
}

pub type UseView = (Seq<char>, Seq<char>, nat);

pub type TagView = (Seq<char>, bool, nat, Seq<UseView>);

pub open spec fn use_view(p: ProjectUsage) -> UseView {
    (p.project_id@, p.project_name@, p.count as nat)
}

pub open spec fn uses_view(v: Seq<ProjectUsage>) -> Seq<UseView> {
    v.map_values(|p: ProjectUsage| use_view(p))
}

pub open spec fn tag_view(t: TagUsage) -> TagView {
    (t.name@, t.managed, t.usage as nat, uses_view(t.projects@))
}

pub open spec fn tags_view(v: Seq<TagUsage>) -> Seq<TagView> {
    v.map_values(|t: TagUsage| tag_view(t))
}

/// Names strictly increasing in byte order: each once, in order.
pub open spec fn by_name(v: Seq<TagView>) -> bool {
    forall|i: int, j: int| #![trigger v[i], v[j]] 0 <= i < j < v.len() ==> text_lt(v[i].0, v[j].0)
}

pub open spec fn by_project(v: Seq<UseView>) -> bool {
    forall|i: int, j: int| #![trigger v[i], v[j]] 0 <= i < j < v.len() ==> text_lt(v[i].0, v[j].0)
}

/// Where `name` belongs: after every leading entry whose name is smaller.
pub open spec fn name_pos(v: Seq<TagView>, name: Seq<char>) -> int
    decreases v.len(),
{
    if v.len() == 0 || !text_lt(v[0].0, name) {
        0
    } else {
        1 + name_pos(v.drop_first(), name)
    }
}

pub open spec fn project_pos(v: Seq<UseView>, id: Seq<char>) -> int
    decreases v.len(),
{
    if v.len() == 0 || !text_lt(v[0].0, id) {
        0
    } else {
        1 + project_pos(v.drop_first(), id)
    }
}

/// A project's uses after one more of its labels: its count grows, or it is
/// added with the project's name.
pub open spec fn count_project(v: Seq<UseView>, id: Seq<char>, name: Seq<char>) -> Seq<UseView> {
    let q = project_pos(v, id);
    if q < v.len() && v[q].0 == id {
        v.update(q, (id, v[q].1, v[q].2 + 1))
    } else {
        v.insert(q, (id, name, 1nat))
    }
}

/// The catalog after one more card label, and whether it was left out: a
/// known name counts the label; a new name enters unless the catalog is
/// full.
pub open spec fn count_label(v: Seq<TagView>, label: Seq<char>, project: Seq<char>, project_name: Seq<char>) -> (Seq<TagView>, bool) {
    let p = name_pos(v, label);
    if p < v.len() && v[p].0 == label {
        (v.update(p, (label, v[p].1, v[p].2 + 1, count_project(v[p].3, project, project_name))), false)
    } else if v.len() >= MAX_CATALOG_NAMES {
        (v, true)
    } else {
        (v.insert(p, (label, false, 1nat, seq![(project, project_name, 1nat)])), false)
    }
}

/// The catalog after all labels of one card, and whether any was left out.
pub open spec fn count_labels(v: Seq<TagView>, labels: Seq<Seq<char>>, project: Seq<char>, project_name: Seq<char>) -> (Seq<TagView>, bool)
    decreases labels.len(),
{
    if labels.len() == 0 {
        (v, false)
    } else {
        let (w, left) = count_labels(v, labels.drop_last(), project, project_name);
        let (x, skipped) = count_label(w, labels.last(), project, project_name);
        (x, left || skipped)
    }
}

/// The catalog after a vocabulary name: the name is marked managed.
pub open spec fn manage(v: Seq<TagView>, name: Seq<char>) -> Seq<TagView> {
    let p = name_pos(v, name);
    if p < v.len() && v[p].0 == name {
        v.update(p, (name, true, v[p].2, v[p].3))
    } else {
        v.insert(p, (name, true, 0nat, Seq::empty()))
    }
}

pub open spec fn manage_all(v: Seq<TagView>, names: Seq<Seq<char>>) -> Seq<TagView>
    decreases names.len(),
{
    if names.len() == 0 {
        v
    } else {
        manage(manage_all(v, names.drop_last()), names.last())
    }
}

proof fn lemma_name_pos(v: Seq<TagView>, name: Seq<char>, p: int)
    requires
        0 <= p <= v.len(),
        forall|a: int| 0 <= a < p ==> text_lt(#[trigger] v[a].0, name),
        p == v.len() || !text_lt(v[p].0, name),
    ensures
        name_pos(v, name) == p,
    decreases p,
{
    if p > 0 {
        let w = v.drop_first();
        assert forall|a: int| 0 <= a < p - 1 implies text_lt(#[trigger] w[a].0, name) by {
            assert(w[a] == v[a + 1]);
        }
        if p - 1 < w.len() {
            assert(w[p - 1] == v[p]);
        }
        lemma_name_pos(w, name, p - 1);
        assert(text_lt(v[0].0, name));
    }
}

proof fn lemma_project_pos(v: Seq<UseView>, id: Seq<char>, q: int)
    requires
        0 <= q <= v.len(),
        forall|a: int| 0 <= a < q ==> text_lt(#[trigger] v[a].0, id),
        q == v.len() || !text_lt(v[q].0, id),
    ensures
        project_pos(v, id) == q,
    decreases q,
{
    if q > 0 {
        let w = v.drop_first();
        assert forall|a: int| 0 <= a < q - 1 implies text_lt(#[trigger] w[a].0, id) by {
            assert(w[a] == v[a + 1]);
        }
        if q - 1 < w.len() {
            assert(w[q - 1] == v[q]);
        }
        lemma_project_pos(w, id, q - 1);
        assert(text_lt(v[0].0, id));
    }
}

fn name_lower(tags: &Vec<TagUsage>, name: &str) -> (p: usize)
    ensures
        p <= tags@.len(),
        p as int == name_pos(tags_view(tags@), name@),
{
    let ghost v = tags_view(tags@);
    let mut p: usize = 0;
    while p < tags.len() && text_less(tags[p].name.as_str(), name)
        invariant
            p <= tags@.len(),
            v == tags_view(tags@),
            forall|a: int| 0 <= a < p ==> text_lt(#[trigger] v[a].0, name@),
        decreases tags@.len() - p,
    {
        assert(v[p as int].0 == tags@[p as int].name@);
        p = p + 1;
    }
    proof {
        if p < tags@.len() {
            assert(v[p as int].0 == tags@[p as int].name@);
        }
        lemma_name_pos(v, name@, p as int);
    }
    p
}

fn project_lower(uses: &Vec<ProjectUsage>, id: &str) -> (q: usize)
    ensures
        q <= uses@.len(),
        q as int == project_pos(uses_view(uses@), id@),
{
    let ghost v = uses_view(uses@);
    let mut q: usize = 0;
    while q < uses.len() && text_less(uses[q].project_id.as_str(), id)
        invariant
            q <= uses@.len(),
            v == uses_view(uses@),
            forall|a: int| 0 <= a < q ==> text_lt(#[trigger] v[a].0, id@),
        decreases uses@.len() - q,
    {
        assert(v[q as int].0 == uses@[q as int].project_id@);
        q = q + 1;
    }
    proof {
        if q < uses@.len() {
            assert(v[q as int].0 == uses@[q as int].project_id@);
        }
        lemma_project_pos(v, id@, q as int);
    }
    q
}

proof fn lemma_name_pos_bounds(v: Seq<TagView>, name: Seq<char>)
    ensures
        0 <= name_pos(v, name) <= v.len(),
        forall|a: int| 0 <= a < name_pos(v, name) ==> text_lt(#[trigger] v[a].0, name),
        name_pos(v, name) < v.len() ==> !text_lt(v[name_pos(v, name)].0, name),
    decreases v.len(),
{
    if v.len() > 0 && text_lt(v[0].0, name) {
        let w = v.drop_first();
        lemma_name_pos_bounds(w, name);
        assert forall|a: int| 0 <= a < name_pos(v, name) implies text_lt(#[trigger] v[a].0, name) by {
            if a > 0 {
                assert(v[a] == w[a - 1]);
            }
        }
        if name_pos(v, name) < v.len() {
            assert(v[name_pos(v, name)] == w[name_pos(w, name)]);
        }
    }
}

proof fn lemma_project_pos_bounds(v: Seq<UseView>, id: Seq<char>)
    ensures
        0 <= project_pos(v, id) <= v.len(),
        forall|a: int| 0 <= a < project_pos(v, id) ==> text_lt(#[trigger] v[a].0, id),
        project_pos(v, id) < v.len() ==> !text_lt(v[project_pos(v, id)].0, id),
    decreases v.len(),
{
    if v.len() > 0 && text_lt(v[0].0, id) {
        let w = v.drop_first();
        lemma_project_pos_bounds(w, id);
        assert forall|a: int| 0 <= a < project_pos(v, id) implies text_lt(#[trigger] v[a].0, id) by {
            if a > 0 {
                assert(v[a] == w[a - 1]);
            }
        }
        if project_pos(v, id) < v.len() {
            assert(v[project_pos(v, id)] == w[project_pos(w, id)]);
        }
    }
}

/// Counting a label keeps each project listed once, in byte order.
proof fn lemma_count_project_sorted(v: Seq<UseView>, id: Seq<char>, name: Seq<char>)
    requires
        by_project(v),
    ensures
        by_project(count_project(v, id, name)),
{
    lemma_project_pos_bounds(v, id);
    let q = project_pos(v, id);
    let w = count_project(v, id, name);
    if q < v.len() && v[q].0 == id {
        assert forall|i: int, j: int| #![trigger w[i], w[j]] 0 <= i < j < w.len() implies text_lt(w[i].0, w[j].0) by {
            assert(w[i].0 == v[i].0 && w[j].0 == v[j].0);
        }
    } else {
        if q < v.len() {
            lemma_text_lt_total(v[q].0, id);
        }
        assert forall|i: int, j: int| #![trigger w[i], w[j]] 0 <= i < j < w.len() implies text_lt(w[i].0, w[j].0) by {
            if j < q {
                assert(w[i] == v[i] && w[j] == v[j]);
            } else if j == q {
                assert(w[i] == v[i]);
            } else if i < q {
                assert(w[i] == v[i] && w[j] == v[j - 1]);
                if j - 1 > q {
                    lemma_text_lt_transitive(id, v[q].0, v[j - 1].0);
                }
                lemma_text_lt_transitive(v[i].0, id, v[j - 1].0);
            } else if i == q {
                assert(w[j] == v[j - 1]);
                if j - 1 > q {
                    lemma_text_lt_transitive(id, v[q].0, v[j - 1].0);
                }
            } else {
                assert(w[i] == v[i - 1] && w[j] == v[j - 1]);
            }
        }
    }
}

/// Entering a name where it belongs keeps the names in byte order.
proof fn lemma_insert_name_sorted(v: Seq<TagView>, t: TagView)
    requires
        by_name(v),
        !(name_pos(v, t.0) < v.len() && v[name_pos(v, t.0)].0 == t.0),
    ensures
        by_name(v.insert(name_pos(v, t.0), t)),
{
    lemma_name_pos_bounds(v, t.0);
    let p = name_pos(v, t.0);
    let w = v.insert(p, t);
    if p < v.len() {
        lemma_text_lt_total(v[p].0, t.0);
    }
    assert forall|i: int, j: int| #![trigger w[i], w[j]] 0 <= i < j < w.len() implies text_lt(w[i].0, w[j].0) by {
        if j < p {
            assert(w[i] == v[i] && w[j] == v[j]);
        } else if j == p {
            assert(w[i] == v[i]);
        } else if i < p {
            assert(w[i] == v[i] && w[j] == v[j - 1]);
            if j - 1 > p {
                lemma_text_lt_transitive(t.0, v[p].0, v[j - 1].0);
            }
            lemma_text_lt_transitive(v[i].0, t.0, v[j - 1].0);
        } else if i == p {
            assert(w[j] == v[j - 1]);
            if j - 1 > p {
                lemma_text_lt_transitive(t.0, v[p].0, v[j - 1].0);
            }
        } else {
            assert(w[i] == v[i - 1] && w[j] == v[j - 1]);
        }
    }
}

/// Replacing an entry by one of the same name keeps the names in order.
proof fn lemma_update_name_sorted(v: Seq<TagView>, p: int, t: TagView)
    requires
        by_name(v),
        0 <= p < v.len(),
        v[p].0 == t.0,
    ensures
        by_name(v.update(p, t)),
{
    let w = v.update(p, t);
    assert forall|i: int, j: int| #![trigger w[i], w[j]] 0 <= i < j < w.len() implies text_lt(w[i].0, w[j].0) by {
        assert(w[i].0 == v[i].0 && w[j].0 == v[j].0);
    }
}

fn count_uses(uses: Vec<ProjectUsage>, id: &str, name: &str) -> (res: Vec<ProjectUsage>)
    requires
        forall|j: int| 0 <= j < uses@.len() ==> (#[trigger] uses@[j]).count < usize::MAX,
    ensures
        uses_view(res@) == count_project(uses_view(uses@), id@, name@),
{
    let ghost v = uses_view(uses@);
    let mut uses = uses;
    let q = project_lower(&uses, id);
    if q < uses.len() && text_eq(uses[q].project_id.as_str(), id) {
        let ghost before = uses@;
        let u = uses.remove(q);
        assert(u == before[q as int]);
        let bumped = ProjectUsage { project_id: u.project_id, project_name: u.project_name, count: u.count + 1 };
        uses.insert(q, bumped);
        assert(uses@ =~= before.update(q as int, bumped));
        assert(v[q as int] == use_view(before[q as int]));
        assert(uses_view(uses@) =~= v.update(q as int, (id@, v[q as int].1, v[q as int].2 + 1)));
    } else {
        let ghost before = uses@;
        let fresh = ProjectUsage { project_id: id.to_owned(), project_name: name.to_owned(), count: 1 };
        uses.insert(q, fresh);
        assert(uses_view(uses@) =~= v.insert(q as int, (id@, name@, 1nat)));
    }
    uses
}

/// The tags found so far, whether any label was left out of a full
/// catalog, and how many labels were counted.
pub struct TagCatalog {
    tags: Vec<TagUsage>,
    limited: bool,
    total: usize,
}

impl TagCatalog {
    #[verifier::type_invariant]
    spec fn well_counted(self) -> bool {
        let v = tags_view(self.tags@);
        &&& by_name(v)
        &&& forall|i: int| 0 <= i < v.len() ==> by_project(#[trigger] v[i].3)
        &&& forall|i: int| 0 <= i < v.len() ==> (#[trigger] v[i]).2 <= self.total
        &&& forall|i: int, j: int| 0 <= i < v.len() && 0 <= j < v[i].3.len() ==> #[trigger] v[i].3[j].2 <= v[i].2
    }

    pub closed spec fn entries(self) -> Seq<TagView> {
        tags_view(self.tags@)
    }

    pub closed spec fn left_out(self) -> bool {
        self.limited
    }

    pub closed spec fn counted(self) -> nat {
        self.total as nat
    }

    /// A catalog of the vocabulary's names, each managed and unused.
    pub fn new(vocabulary: &Vec<String>) -> (res: TagCatalog)
        ensures
            res.entries() == manage_all(Seq::empty(), vocabulary@.map_values(|s: String| s@)),
            by_name(res.entries()),
            !res.left_out(),
            res.counted() == 0,
    {
        let ghost names = vocabulary@.map_values(|s: String| s@);
        let mut tags: Vec<TagUsage> = Vec::new();
        let mut i: usize = 0;
        proof {
            assert(names.take(0) =~= Seq::<Seq<char>>::empty());
            assert(tags_view(tags@) =~= Seq::<TagView>::empty());
        }
        while i < vocabulary.len()
            invariant
                i <= vocabulary@.len(),
                names == vocabulary@.map_values(|s: String| s@),
                tags_view(tags@) == manage_all(Seq::empty(), names.take(i as int)),
                by_name(tags_view(tags@)),
                forall|k: int| 0 <= k < tags@.len() ==> (#[trigger] tags@[k]).usage == 0 && tags@[k].projects@.len() == 0,
            decreases vocabulary@.len() - i,
        {
            let name = vocabulary[i].as_str();
            let ghost v = tags_view(tags@);
            proof {
                let t = names.take(i + 1);
                assert(t.drop_last() =~= names.take(i as int));
                assert(t.last() == name@);
            }
            let p = name_lower(&tags, name);
            if p < tags.len() && text_eq(tags[p].name.as_str(), name) {
                let ghost before = tags@;
                let t = tags.remove(p);
                let marked = TagUsage { name: t.name, managed: true, usage: t.usage, projects: t.projects };
                tags.insert(p, marked);
                proof {
                    assert(tags@ =~= before.update(p as int, marked));
                    assert(tags_view(tags@) =~= v.update(p as int, (name@, true, v[p as int].2, v[p as int].3)));
                    lemma_update_name_sorted(v, p as int, (name@, true, v[p as int].2, v[p as int].3));
                }
            } else {
                let ghost before = tags@;
                let fresh = TagUsage { name: name.to_owned(), managed: true, usage: 0, projects: Vec::new() };
                tags.insert(p, fresh);
                proof {
                    assert(uses_view(fresh.projects@) =~= Seq::<UseView>::empty());
                    assert(tags_view(tags@) =~= v.insert(p as int, (name@, true, 0nat, Seq::<UseView>::empty())));
                    lemma_insert_name_sorted(v, (name@, true, 0nat, Seq::<UseView>::empty()));
                    assert forall|k: int| 0 <= k < tags@.len() implies (#[trigger] tags@[k]).usage == 0 && tags@[k].projects@.len() == 0 by {
                        if k < p {
                            assert(tags@[k] == before[k]);
                        } else if k > p {
                            assert(tags@[k] == before[k - 1]);
                        }
                    }
                }
            }
            i = i + 1;
        }
        proof {
            assert(names.take(i as int) =~= names);
            let v = tags_view(tags@);
            assert forall|k: int| 0 <= k < v.len() implies (#[trigger] v[k]).2 <= 0 && v[k].3.len() == 0 by {
                assert(v[k] == tag_view(tags@[k]));
            }
        }
        TagCatalog { tags, limited: false, total: 0 }
    }
}

impl TagCatalog {
    /// Counts one label of a card of `project`.
    pub fn add_label(&mut self, project: &str, project_name: &str, label: &str)
        requires
            old(self).counted() < usize::MAX,
        ensures
            final(self).entries() == count_label(old(self).entries(), label@, project@, project_name@).0,
            final(self).left_out() == (old(self).left_out() || count_label(old(self).entries(), label@, project@, project_name@).1),
            final(self).counted() == old(self).counted() + if count_label(old(self).entries(), label@, project@, project_name@).1 { 0int } else { 1int },
            by_name(final(self).entries()),
    {
        proof {
            use_type_invariant(&*self);
        }
        let ghost v = tags_view(self.tags@);
        let p = name_lower(&self.tags, label);
        if p < self.tags.len() && text_eq(self.tags[p].name.as_str(), label) {
            assert(v[p as int].2 <= self.total);
            assert(self.total < usize::MAX);
            let mut tags: Vec<TagUsage> = Vec::new();
            std::mem::swap(&mut tags, &mut self.tags);
            let ghost before = tags@;
            let t = tags.remove(p);
            proof {
                assert(t == before[p as int]);
                assert(v[p as int] == tag_view(t));
                assert forall|j: int| 0 <= j < t.projects@.len() implies (#[trigger] t.projects@[j]).count < usize::MAX by {
                    assert(v[p as int].3[j] == use_view(t.projects@[j]));
                    assert(v[p as int].3[j].2 <= v[p as int].2);
                }
                lemma_count_project_sorted(v[p as int].3, project@, project_name@);
            }
            let projects = count_uses(t.projects, project, project_name);
            let bumped = TagUsage { name: t.name, managed: t.managed, usage: t.usage + 1, projects };
            tags.insert(p, bumped);
            let ghost updated = (label@, v[p as int].1, v[p as int].2 + 1, count_project(v[p as int].3, project@, project_name@));
            proof {
                assert(tags@ =~= before.update(p as int, bumped));
                assert(tags_view(tags@) =~= v.update(p as int, updated));
                lemma_update_name_sorted(v, p as int, updated);
                let w = tags_view(tags@);
                assert forall|i: int| 0 <= i < w.len() implies by_project(#[trigger] w[i].3) by {
                    if i != p {
                        assert(w[i] == v[i]);
                    }
                }
                assert forall|i: int| 0 <= i < w.len() implies (#[trigger] w[i]).2 <= self.total + 1 by {
                    if i != p {
                        assert(w[i] == v[i]);
                    }
                }
                assert forall|i: int, j: int| 0 <= i < w.len() && 0 <= j < w[i].3.len() implies #[trigger] w[i].3[j].2 <= w[i].2 by {
                    if i != p {
                        assert(w[i] == v[i]);
                    } else {
                        let old_uses = v[p as int].3;
                        let q = project_pos(old_uses, project@);
                        lemma_project_pos_bounds(old_uses, project@);
                        if q < old_uses.len() && old_uses[q].0 == project@ {
                            if j == q {
                                assert(old_uses[q].2 <= v[p as int].2);
                            } else {
                                assert(w[i].3[j] == old_uses[j]);
                                assert(old_uses[j].2 <= v[p as int].2);
                            }
                        } else {
                            if j < q {
                                assert(w[i].3[j] == old_uses[j]);
                                assert(old_uses[j].2 <= v[p as int].2);
                            } else if j > q {
                                assert(w[i].3[j] == old_uses[j - 1]);
                                assert(old_uses[j - 1].2 <= v[p as int].2);
                            }
                        }
                    }
                }
            }
            self.total = self.total + 1;
            self.tags = tags;
        } else if self.tags.len() >= MAX_CATALOG_NAMES {
            self.limited = true;
        } else {
            let mut tags: Vec<TagUsage> = Vec::new();
            std::mem::swap(&mut tags, &mut self.tags);
            let ghost before = tags@;
            let mut projects: Vec<ProjectUsage> = Vec::new();
            projects.push(ProjectUsage { project_id: project.to_owned(), project_name: project_name.to_owned(), count: 1 });
            let fresh = TagUsage { name: label.to_owned(), managed: false, usage: 1, projects };
            tags.insert(p, fresh);
            let ghost entry = (label@, false, 1nat, seq![(project@, project_name@, 1nat)]);
            proof {
                assert(uses_view(fresh.projects@) =~= seq![(project@, project_name@, 1nat)]);
                assert(tags_view(tags@) =~= v.insert(p as int, entry));
                lemma_insert_name_sorted(v, entry);
                let w = tags_view(tags@);
                assert forall|i: int| 0 <= i < w.len() implies by_project(#[trigger] w[i].3) && w[i].2 <= self.total + 1
                    && forall|j: int| 0 <= j < w[i].3.len() ==> #[trigger] w[i].3[j].2 <= w[i].2 by {
                    if i < p {
                        assert(w[i] == v[i]);
                    } else if i > p {
                        assert(w[i] == v[i - 1]);
                    }
                }
            }
            self.total = self.total + 1;
            self.tags = tags;
        }
    }

    /// Counts the labels of one card of `project`, in order.
    pub fn add_card(&mut self, project: &str, project_name: &str, labels: &Vec<String>)
        requires
            old(self).counted() + labels@.len() <= usize::MAX,
        ensures
            final(self).entries() == count_labels(old(self).entries(), labels@.map_values(|s: String| s@), project@, project_name@).0,
            final(self).left_out() == (old(self).left_out() || count_labels(
                old(self).entries(),
                labels@.map_values(|s: String| s@),
                project@,
                project_name@,
            ).1),
            final(self).counted() <= old(self).counted() + labels@.len(),
            by_name(final(self).entries()),
    {
        let ghost start = self.entries();
        let ghost start_left = self.left_out();
        let ghost start_counted = self.counted();
        let ghost l = labels@.map_values(|s: String| s@);
        proof {
            use_type_invariant(&*self);
            assert(l.take(0) =~= Seq::<Seq<char>>::empty());
        }
        let mut i: usize = 0;
        while i < labels.len()
            invariant
                i <= labels@.len(),
                l == labels@.map_values(|s: String| s@),
                start_counted + labels@.len() <= usize::MAX,
                self.entries() == count_labels(start, l.take(i as int), project@, project_name@).0,
                self.left_out() == (start_left || count_labels(start, l.take(i as int), project@, project_name@).1),
                self.counted() <= start_counted + i,
                by_name(self.entries()),
            decreases labels@.len() - i,
        {
            proof {
                let t = l.take(i + 1);
                assert(t.drop_last() =~= l.take(i as int));
                assert(t.last() == labels@[i as int]@);
            }
            self.add_label(project, project_name, labels[i].as_str());
            i = i + 1;
        }
        proof {
            assert(l.take(i as int) =~= l);
        }
    }

    /// The catalog's tags, in byte order of their names.
    pub fn tags(&self) -> (res: &Vec<TagUsage>)
        ensures
            tags_view(res@) == self.entries(),
    {
        &self.tags
    }

    /// Whether some label was left out because the catalog was full.
    pub fn limited(&self) -> (res: bool)
        ensures
            res == self.left_out(),
    {
        self.limited
    }

    /// How many labels were counted.
    pub fn total(&self) -> (res: usize)
        ensures
            res == self.counted(),
    {
        self.total
    }
}

/// The labels a tag's projects account for.
pub open spec fn sum_counts(v: Seq<UseView>) -> nat
    decreases v.len(),
{
    if v.len() == 0 {
        0
    } else {
        sum_counts(v.drop_last()) + v.last().2
    }
}

/// Every tag's usage is what its projects account for.
pub open spec fn usage_adds_up(v: Seq<TagView>) -> bool {
    forall|i: int| 0 <= i < v.len() ==> (#[trigger] v[i]).2 == sum_counts(v[i].3)
}

proof fn lemma_sum_update(v: Seq<UseView>, q: int, x: UseView)
    requires
        0 <= q < v.len(),
    ensures
        sum_counts(v.update(q, x)) + v[q].2 == sum_counts(v) + x.2,
    decreases v.len(),
{
    let w = v.update(q, x);
    if q == v.len() - 1 {
        assert(w.drop_last() =~= v.drop_last());
    } else {
        lemma_sum_update(v.drop_last(), q, x);
        assert(w.drop_last() =~= v.drop_last().update(q, x));
    }
}

proof fn lemma_sum_insert(v: Seq<UseView>, q: int, x: UseView)
    requires
        0 <= q <= v.len(),
    ensures
        sum_counts(v.insert(q, x)) == sum_counts(v) + x.2,
    decreases v.len(),
{
    let w = v.insert(q, x);
    if q == v.len() {
        assert(w.drop_last() =~= v);
    } else {
        lemma_sum_insert(v.drop_last(), q, x);
        assert(w.drop_last() =~= v.drop_last().insert(q, x));
    }
}

/// Each label counted adds one to its tag's usage and one to its project's
/// count, so a tag's usage is always the sum over its projects.
pub proof fn lemma_usage_adds_up(v: Seq<TagView>, label: Seq<char>, project: Seq<char>, project_name: Seq<char>)
    requires
        usage_adds_up(v),
    ensures
        usage_adds_up(count_label(v, label, project, project_name).0),
{
    let p = name_pos(v, label);
    lemma_name_pos_bounds(v, label);
    let w = count_label(v, label, project, project_name).0;
    if p < v.len() && v[p].0 == label {
        let uses = v[p].3;
        let q = project_pos(uses, project);
        lemma_project_pos_bounds(uses, project);
        if q < uses.len() && uses[q].0 == project {
            lemma_sum_update(uses, q, (project, uses[q].1, uses[q].2 + 1));
        } else {
            lemma_sum_insert(uses, q, (project, project_name, 1nat));
        }
        assert forall|i: int| 0 <= i < w.len() implies (#[trigger] w[i]).2 == sum_counts(w[i].3) by {
            if i != p {
                assert(w[i] == v[i]);
            }
        }
    } else if v.len() < MAX_CATALOG_NAMES {
        let one: Seq<UseView> = seq![(project, project_name, 1nat)];
        assert(one.drop_last() =~= Seq::<UseView>::empty());
        assert(sum_counts(one.drop_last()) == 0);
        assert(one.last().2 == 1);
        assert(sum_counts(one) == 1);
        assert forall|i: int| 0 <= i < w.len() implies (#[trigger] w[i]).2 == sum_counts(w[i].3) by {
            if i < p {
                assert(w[i] == v[i]);
            } else if i > p {
                assert(w[i] == v[i - 1]);
            }
        }
    }
}

/// A new catalog starts with nothing counted.
pub proof fn lemma_vocabulary_adds_up(v: Seq<TagView>, names: Seq<Seq<char>>)
    requires
        usage_adds_up(v),
    ensures
        usage_adds_up(manage_all(v, names)),
    decreases names.len(),
{
    if names.len() > 0 {
        lemma_vocabulary_adds_up(v, names.drop_last());
        let u = manage_all(v, names.drop_last());
        let name = names.last();
        let p = name_pos(u, name);
        lemma_name_pos_bounds(u, name);
        let w = manage(u, name);
        assert(Seq::<UseView>::empty().len() == 0);
        assert forall|i: int| 0 <= i < w.len() implies (#[trigger] w[i]).2 == sum_counts(w[i].3) by {
            if p < u.len() && u[p].0 == name {
                if i != p {
                    assert(w[i] == u[i]);
                } else {
                    assert(u[p].2 == sum_counts(u[p].3));
                }
            } else {
                if i < p {
                    assert(w[i] == u[i]);
                } else if i > p {
                    assert(w[i] == u[i - 1]);
                }
            }
        }
    }
}

/// The names a tag suggestion offers: the vocabulary's and the indexed
/// labels', each once in byte order, the first 10,000 of them, and whether
/// there were more.
pub fn suggestion_names(vocabulary: &Vec<String>, labels: &Vec<String>) -> (res: (Vec<String>, bool))
    ensures
        exists|all: Seq<Seq<char>>| {
            &&& strictly_sorted(all)
            &&& all.to_set() == texts(vocabulary@).to_set() + texts(labels@).to_set()
            &&& texts(res.0@) == all.take(if all.len() < MAX_CATALOG_NAMES { all.len() as int } else { MAX_CATALOG_NAMES as int })
            &&& res.1 == (all.len() > MAX_CATALOG_NAMES)
        },
{
    let mut set: Vec<String> = Vec::new();
    let mut i: usize = 0;
    proof {
        assert(texts(set@).to_set() =~= texts(vocabulary@.take(0)).to_set());
    }
    while i < vocabulary.len()
        invariant
            i <= vocabulary@.len(),
            strictly_sorted(texts(set@)),
            texts(set@).to_set() == texts(vocabulary@.take(i as int)).to_set(),
        decreases vocabulary@.len() - i,
    {
        insert_sorted(&mut set, vocabulary[i].as_str());
        proof {
            assert(texts(vocabulary@.take(i + 1)) =~= texts(vocabulary@.take(i as int)).push(vocabulary@[i as int]@));
            texts(vocabulary@.take(i as int)).lemma_push_to_set_commute(vocabulary@[i as int]@);
        }
        i = i + 1;
    }
    assert(vocabulary@.take(i as int) =~= vocabulary@);
    let mut j: usize = 0;
    proof {
        assert(labels@.take(0) =~= Seq::<String>::empty());
        assert(texts(labels@.take(0)).to_set() =~= Set::<Seq<char>>::empty());
        assert(texts(set@).to_set() =~= texts(vocabulary@).to_set() + texts(labels@.take(0)).to_set());
    }
    while j < labels.len()
        invariant
            j <= labels@.len(),
            strictly_sorted(texts(set@)),
            texts(set@).to_set() == texts(vocabulary@).to_set() + texts(labels@.take(j as int)).to_set(),
        decreases labels@.len() - j,
    {
        insert_sorted(&mut set, labels[j].as_str());
        proof {
            assert(texts(labels@.take(j + 1)) =~= texts(labels@.take(j as int)).push(labels@[j as int]@));
            texts(labels@.take(j as int)).lemma_push_to_set_commute(labels@[j as int]@);
            assert(texts(set@).to_set() =~= texts(vocabulary@).to_set() + texts(labels@.take(j + 1)).to_set());
        }
        j = j + 1;
    }
    assert(labels@.take(j as int) =~= labels@);
    let ghost all = texts(set@);
    let more = set.len() > MAX_CATALOG_NAMES;
    if more {
        set.truncate(MAX_CATALOG_NAMES);
        assert(texts(set@) =~= all.take(MAX_CATALOG_NAMES as int));
    } else {
        assert(all.take(all.len() as int) =~= all);
    }
    (set, more)
}

/// Suggestions are complete when no name was left out, every indexed
/// source is healthy, and the index snapshot is fresh.
pub fn suggestions_complete(limited: bool, unhealthy: bool, fresh: bool) -> (res: bool)
    ensures
        res == (!limited && !unhealthy && fresh),
{
    !limited && !unhealthy && fresh
}

/// Labels never grow the catalog past 10,000 names: a full catalog only
/// counts names it holds already.
pub proof fn lemma_catalog_bounded(v: Seq<TagView>, label: Seq<char>, project: Seq<char>, project_name: Seq<char>)
    ensures
        count_label(v, label, project, project_name).0.len() <= if v.len() < MAX_CATALOG_NAMES {
            MAX_CATALOG_NAMES as int
        } else {
            v.len() as int
        },
{
    lemma_name_pos_bounds(v, label);
}

} // verus!
