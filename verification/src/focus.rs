//! Which cards are in focus. Pin membership belongs to card sources: the
//! pinned cards of each project are taken in card order, project after
//! project, and the workspace focus list only orders them.
use crate::registry::{focus_view, FocusRef};
use crate::reply::{is_rejection, AppError};
use crate::text::{lemma_text_lt_irreflexive, lemma_text_lt_total, lemma_text_lt_transitive, text_eq, text_less, text_lt};
use vstd::prelude::*;

verus! {

/// Most cards the focus holds.
pub const MAX_FOCUS: usize = 100;

/// Most cards one focus read scans, over all projects.
pub const MAX_SCANNED_CARDS: usize = 50_000;

/// A card of a project, by what the focus reads of it.
pub struct FocusCard {
    pub id: String,
    pub position: Option<String>,
    pub pinned: bool,
}

/// A card's place in card order: its position, then its ID.
pub type CardKey = (Option<Seq<char>>, Seq<char>);

pub open spec fn card_key(c: FocusCard) -> CardKey {
    (
        match c.position {
            Some(p) => Some(p@),
            None => None,
        },
        c.id@,
    )
}

pub open spec fn keys_of(cards: Seq<FocusCard>) -> Seq<CardKey> {
    cards.map_values(|c: FocusCard| card_key(c))
}

/// Card order: a card without a position first, then by position in byte
/// order, then by ID.
pub open spec fn key_lt(a: CardKey, b: CardKey) -> bool {
    match (a.0, b.0) {
        (None, Some(_)) => true,
        (Some(_), None) => false,
        (Some(x), Some(y)) => text_lt(x, y) || (x == y && text_lt(a.1, b.1)),
        (None, None) => text_lt(a.1, b.1),
    }
}

pub proof fn lemma_key_lt_irreflexive(a: CardKey)
    ensures
        !key_lt(a, a),
{
    lemma_text_lt_irreflexive(a.1);
    if let Some(x) = a.0 {
        lemma_text_lt_irreflexive(x);
    }
}

pub proof fn lemma_key_lt_total(a: CardKey, b: CardKey)
    ensures
        a == b || key_lt(a, b) || key_lt(b, a),
{
    lemma_text_lt_total(a.1, b.1);
    if let (Some(x), Some(y)) = (a.0, b.0) {
        lemma_text_lt_total(x, y);
    }
}

pub proof fn lemma_key_lt_transitive(a: CardKey, b: CardKey, c: CardKey)
    requires
        key_lt(a, b),
        key_lt(b, c),
    ensures
        key_lt(a, c),
{
    if text_lt(a.1, b.1) && text_lt(b.1, c.1) {
        lemma_text_lt_transitive(a.1, b.1, c.1);
    }
    if let (Some(x), Some(y), Some(z)) = (a.0, b.0, c.0) {
        if text_lt(x, y) && text_lt(y, z) {
            lemma_text_lt_transitive(x, y, z);
        }
    }
}

fn key_less(a: &FocusCard, b: &FocusCard) -> (res: bool)
    ensures
        res == key_lt(card_key(*a), card_key(*b)),
{
    match (&a.position, &b.position) {
        (None, Some(_)) => true,
        (Some(_), None) => false,
        (Some(x), Some(y)) => text_less(x.as_str(), y.as_str()) || (text_eq(x.as_str(), y.as_str()) && text_less(
            a.id.as_str(),
            b.id.as_str(),
        )),
        (None, None) => text_less(a.id.as_str(), b.id.as_str()),
    }
}

/// Whether card `i` comes before card `j` when cards are sorted stably by
/// card order: by key, and by their place where keys are equal.
pub open spec fn card_before(keys: Seq<CardKey>, i: int, j: int) -> bool {
    key_lt(keys[i], keys[j]) || (keys[i] == keys[j] && i < j)
}

/// `order` lists the positions of the pinned cards, each once, in card
/// order.
pub open spec fn pinned_in_order(cards: Seq<FocusCard>, order: Seq<usize>) -> bool {
    &&& forall|a: int| 0 <= a < order.len() ==> (#[trigger] order[a]) < cards.len() && cards[order[a] as int].pinned
    &&& forall|k: int| 0 <= k < cards.len() && (#[trigger] cards[k]).pinned ==> order.contains(k as usize)
    &&& forall|a: int, b: int|
        #![trigger order[a], order[b]]
        0 <= a < b < order.len() ==> card_before(keys_of(cards), order[a] as int, order[b] as int)
}

fn pinned_order(cards: &Vec<FocusCard>) -> (order: Vec<usize>)
    ensures
        pinned_in_order(cards@, order@),
{
    let ghost keys = keys_of(cards@);
    let mut order: Vec<usize> = Vec::new();
    let mut k: usize = 0;
    while k < cards.len()
        invariant
            k <= cards.len(),
            keys == keys_of(cards@),
            forall|a: int| 0 <= a < order@.len() ==> (#[trigger] order@[a]) < k && cards@[order@[a] as int].pinned,
            forall|m: int| 0 <= m < k && (#[trigger] cards@[m]).pinned ==> order@.contains(m as usize),
            forall|a: int, b: int|
                #![trigger order@[a], order@[b]]
                0 <= a < b < order@.len() ==> card_before(keys, order@[a] as int, order@[b] as int),
        decreases cards.len() - k,
    {
        if cards[k].pinned {
            let mut p: usize = 0;
            while p < order.len() && !key_less(&cards[k], &cards[order[p]])
                invariant
                    p <= order@.len(),
                    k < cards.len(),
                    keys == keys_of(cards@),
                    forall|a: int| 0 <= a < order@.len() ==> (#[trigger] order@[a]) < k,
                    forall|a: int| 0 <= a < p ==> !key_lt(keys[k as int], keys[#[trigger] order@[a] as int]),
                decreases order@.len() - p,
            {
                p = p + 1;
            }
            let ghost s0 = order@;
            order.insert(p, k);
            proof {
                let s1 = order@;
                assert(s1 =~= s0.insert(p as int, k));
                assert forall|a: int| 0 <= a < s1.len() implies (#[trigger] s1[a]) < k + 1 && cards@[s1[a] as int].pinned by {
                    if a > p {
                        assert(s1[a] == s0[a - 1]);
                    } else if a < p {
                        assert(s1[a] == s0[a]);
                    }
                }
                assert forall|m: int| 0 <= m < k + 1 && (#[trigger] cards@[m]).pinned implies s1.contains(m as usize) by {
                    if m == k {
                        assert(s1[p as int] == k);
                    } else {
                        let a = choose|a: int| 0 <= a < s0.len() && s0[a] == m as usize;
                        if a < p {
                            assert(s1[a] == m as usize);
                        } else {
                            assert(s1[a + 1] == m as usize);
                        }
                    }
                }
                assert forall|e: int| 0 <= e < s0.len() && e < p implies card_before(keys, #[trigger] s0[e] as int, k as int) by {
                    lemma_key_lt_total(keys[s0[e] as int], keys[k as int]);
                }
                assert forall|e: int| p <= e < s0.len() implies card_before(keys, k as int, #[trigger] s0[e] as int) by {
                    let first = s0[p as int] as int;
                    assert(key_lt(keys[k as int], keys[first]));
                    if e > p {
                        assert(card_before(keys, first, s0[e] as int));
                        if key_lt(keys[first], keys[s0[e] as int]) {
                            lemma_key_lt_transitive(keys[k as int], keys[first], keys[s0[e] as int]);
                        }
                    }
                }
                assert forall|a: int, b: int|
                    #![trigger s1[a], s1[b]]
                    0 <= a < b < s1.len() implies card_before(keys, s1[a] as int, s1[b] as int) by {
                    if b < p {
                        assert(s1[a] == s0[a] && s1[b] == s0[b]);
                    } else if b == p {
                        assert(s1[a] == s0[a]);
                    } else if a < p {
                        assert(s1[a] == s0[a] && s1[b] == s0[b - 1]);
                        let x = s0[a] as int;
                        let y = s0[b - 1] as int;
                        assert(card_before(keys, x, y));
                    } else if a == p {
                        assert(s1[b] == s0[b - 1]);
                    } else {
                        assert(s1[a] == s0[a - 1] && s1[b] == s0[b - 1]);
                    }
                }
            }
        }
        k = k + 1;
    }
    order
}

/// Whether a focus read limited to `only_project` scans this project.
pub fn scans(only_project: Option<&str>, project_id: &str) -> (res: bool)
    ensures
        res == match only_project {
            Some(id) => id@ == project_id@,
            None => true,
        },
{
    match only_project {
        Some(id) => text_eq(id, project_id),
        None => true,
    }
}

/// The pinned cards found so far, project after project, and how many
/// cards were scanned.
pub struct FocusScan {
    scanned: usize,
    pinned: Vec<FocusRef>,
}

pub open spec fn refs_view(v: Seq<FocusRef>) -> Seq<(Seq<char>, Seq<char>)> {
    v.map_values(|f: FocusRef| focus_view(f))
}

/// The focus entries of one project's pinned cards, in card order.
pub open spec fn entries(project: Seq<char>, cards: Seq<FocusCard>, order: Seq<usize>) -> Seq<(Seq<char>, Seq<char>)> {
    order.map_values(|k: usize| (project, cards[k as int].id@))
}

impl FocusScan {
    #[verifier::type_invariant]
    spec fn bounded(self) -> bool {
        self.scanned <= MAX_SCANNED_CARDS && self.pinned@.len() <= MAX_FOCUS
    }

    pub closed spec fn scanned(self) -> nat {
        self.scanned as nat
    }

    pub closed spec fn items(self) -> Seq<(Seq<char>, Seq<char>)> {
        refs_view(self.pinned@)
    }

    pub fn new() -> (res: FocusScan)
        ensures
            res.scanned() == 0,
            res.items() == Seq::<(Seq<char>, Seq<char>)>::empty(),
    {
        let res = FocusScan { scanned: 0, pinned: Vec::new() };
        assert(res.items() =~= Seq::<(Seq<char>, Seq<char>)>::empty());
        res
    }

    /// Adds one project's cards. More than 50,000 cards scanned in all is
    /// `422 FOCUS_SOURCE_LIMIT`; more than 100 pinned cards in all is `422
    /// FOCUS_LIMIT`.
    pub fn add_project(&mut self, project_id: &str, cards: &Vec<FocusCard>) -> (res: Result<(), AppError>)
        ensures
            old(self).scanned() + cards@.len() > MAX_SCANNED_CARDS ==> (res matches Err(e) && is_rejection(e, 422, "FOCUS_SOURCE_LIMIT"@)),
            old(self).scanned() + cards@.len() <= MAX_SCANNED_CARDS ==> exists|order: Seq<usize>| pinned_in_order(cards@, order) && if old(self).items().len() + order.len() > MAX_FOCUS {
                res matches Err(e) && is_rejection(e, 422, "FOCUS_LIMIT"@)
            } else {
                &&& res is Ok
                &&& final(self).scanned() == old(self).scanned() + cards@.len()
                &&& final(self).items() == old(self).items() + entries(project_id@, cards@, order)
            },
            final(self).items().len() <= MAX_FOCUS,
            final(self).scanned() <= MAX_SCANNED_CARDS,
    {
        proof {
            use_type_invariant(&*self);
        }
        if cards.len() > MAX_SCANNED_CARDS - self.scanned {
            return Err(AppError::reject(422, "FOCUS_SOURCE_LIMIT"));
        }
        let order = pinned_order(cards);
        if order.len() > MAX_FOCUS - self.pinned.len() {
            return Err(AppError::reject(422, "FOCUS_LIMIT"));
        }
        let ghost before = self.items();
        let mut pinned: Vec<FocusRef> = Vec::new();
        std::mem::swap(&mut pinned, &mut self.pinned);
        let mut i: usize = 0;
        while i < order.len()
            invariant
                i <= order@.len(),
                pinned_in_order(cards@, order@),
                pinned@.len() == before.len() + i,
                before.len() + order@.len() <= MAX_FOCUS,
                refs_view(pinned@) == before + entries(project_id@, cards@, order@).take(i as int),
            decreases order@.len() - i,
        {
            let k = order[i];
            let ghost prev = refs_view(pinned@);
            pinned.push(FocusRef { project_id: project_id.to_owned(), card_id: cards[k].id.clone() });
            proof {
                assert(refs_view(pinned@) =~= prev.push((project_id@, cards@[k as int].id@)));
                assert(entries(project_id@, cards@, order@).take(i + 1) =~= entries(project_id@, cards@, order@).take(i as int).push(
                    (project_id@, cards@[k as int].id@),
                ));
            }
            i = i + 1;
        }
        proof {
            assert(entries(project_id@, cards@, order@).take(i as int) =~= entries(project_id@, cards@, order@));
        }
        self.pinned = pinned;
        self.scanned = self.scanned + cards.len();
        Ok(())
    }
}

/// The last place of an entry in the focus list, or -1 when it is not
/// there.
pub open spec fn last_at(focus: Seq<(Seq<char>, Seq<char>)>, item: (Seq<char>, Seq<char>)) -> int
    decreases focus.len(),
{
    if focus.len() == 0 {
        -1
    } else if focus.last() == item {
        focus.len() - 1
    } else {
        last_at(focus.drop_last(), item)
    }
}

/// Where the focus list orders an entry: by its last place in the list,
/// after every listed entry when it is not listed.
pub open spec fn focus_rank(focus: Seq<(Seq<char>, Seq<char>)>, item: (Seq<char>, Seq<char>)) -> int {
    if last_at(focus, item) < 0 {
        focus.len() as int
    } else {
        last_at(focus, item)
    }
}

pub open spec fn rank_before(ranks: Seq<int>, i: int, j: int) -> bool {
    ranks[i] < ranks[j] || (ranks[i] == ranks[j] && i < j)
}

/// `order` lists every entry once, sorted stably by focus rank.
pub open spec fn ranked(items: Seq<(Seq<char>, Seq<char>)>, focus: Seq<(Seq<char>, Seq<char>)>, order: Seq<usize>) -> bool {
    let ranks = items.map_values(|x: (Seq<char>, Seq<char>)| focus_rank(focus, x));
    &&& order.len() == items.len()
    &&& forall|a: int| 0 <= a < order.len() ==> (#[trigger] order[a]) < items.len()
    &&& forall|k: usize| (k as int) < items.len() ==> #[trigger] order.contains(k)
    &&& forall|a: int, b: int| #![trigger order[a], order[b]] 0 <= a < b < order.len() ==> rank_before(ranks, order[a] as int, order[b] as int)
}

fn same_ref(a: &FocusRef, b: &FocusRef) -> (res: bool)
    ensures
        res == (focus_view(*a) == focus_view(*b)),
{
    text_eq(a.project_id.as_str(), b.project_id.as_str()) && text_eq(a.card_id.as_str(), b.card_id.as_str())
}

fn rank_of(focus: &Vec<FocusRef>, item: &FocusRef) -> (res: usize)
    ensures
        res as int == focus_rank(refs_view(focus@), focus_view(*item)),
{
    let ghost f = refs_view(focus@);
    let ghost x = focus_view(*item);
    let mut found = false;
    let mut r: usize = 0;
    let mut j: usize = 0;
    while j < focus.len()
        invariant
            j <= focus@.len(),
            f == refs_view(focus@),
            x == focus_view(*item),
            found ==> r as int == last_at(f.take(j as int), x),
            !found ==> last_at(f.take(j as int), x) < 0,
        decreases focus@.len() - j,
    {
        proof {
            let t = f.take(j + 1);
            assert(t.drop_last() =~= f.take(j as int));
            assert(t.last() == f[j as int]);
            assert(f[j as int] == focus_view(focus@[j as int]));
            assert(last_at(t, x) == if t.last() == x { j as int } else { last_at(t.drop_last(), x) });
        }
        if same_ref(&focus[j], item) {
            r = j;
            found = true;
        }
        j = j + 1;
    }
    proof {
        assert(f.take(j as int) =~= f);
    }
    if found {
        r
    } else {
        focus.len()
    }
}

impl FocusScan {
    /// The pinned cards in the order the workspace focus list gives them:
    /// by their last place in the list, those it does not list after, and
    /// otherwise in the order they were found.
    pub fn ordered(&self, focus: &Vec<FocusRef>) -> (res: Vec<FocusRef>)
        ensures
            exists|order: Seq<usize>| ranked(self.items(), refs_view(focus@), order)
                && refs_view(res@) == order.map_values(|k: usize| self.items()[k as int]),
    {
        let ghost items = self.items();
        let ghost f = refs_view(focus@);
        let ghost ranks = items.map_values(|x: (Seq<char>, Seq<char>)| focus_rank(f, x));
        let mut rank: Vec<usize> = Vec::new();
        let mut i: usize = 0;
        while i < self.pinned.len()
            invariant
                i <= self.pinned@.len(),
                items == refs_view(self.pinned@),
                f == refs_view(focus@),
                ranks == items.map_values(|x: (Seq<char>, Seq<char>)| focus_rank(f, x)),
                rank@.len() == i,
                forall|m: int| 0 <= m < i ==> (#[trigger] rank@[m]) as int == ranks[m],
            decreases self.pinned@.len() - i,
        {
            let r = rank_of(focus, &self.pinned[i]);
            rank.push(r);
            i = i + 1;
        }
        let mut order: Vec<usize> = Vec::new();
        let mut k: usize = 0;
        while k < rank.len()
            invariant
                k <= rank@.len(),
                rank@.len() == items.len(),
                forall|m: int| 0 <= m < rank@.len() ==> (#[trigger] rank@[m]) as int == ranks[m],
                order@.len() == k,
                forall|a: int| 0 <= a < order@.len() ==> (#[trigger] order@[a]) < k,
                forall|m: usize| m < k ==> #[trigger] order@.contains(m),
                forall|a: int, b: int|
                    #![trigger order@[a], order@[b]]
                    0 <= a < b < order@.len() ==> rank_before(ranks, order@[a] as int, order@[b] as int),
            decreases rank@.len() - k,
        {
            let mut p: usize = 0;
            while p < order.len() && rank[order[p]] <= rank[k]
                invariant
                    p <= order@.len(),
                    k < rank@.len(),
                    forall|a: int| 0 <= a < order@.len() ==> (#[trigger] order@[a]) < k,
                    forall|a: int| 0 <= a < p ==> rank@[#[trigger] order@[a] as int] <= rank@[k as int],
                decreases order@.len() - p,
            {
                p = p + 1;
            }
            let ghost s0 = order@;
            order.insert(p, k);
            proof {
                let s1 = order@;
                assert(s1 =~= s0.insert(p as int, k));
                assert forall|a: int| 0 <= a < s1.len() implies (#[trigger] s1[a]) < k + 1 by {
                    if a > p {
                        assert(s1[a] == s0[a - 1]);
                    } else if a < p {
                        assert(s1[a] == s0[a]);
                    }
                }
                assert forall|m: usize| m < k + 1 implies #[trigger] s1.contains(m) by {
                    if m == k {
                        assert(s1[p as int] == k);
                    } else {
                        assert(s0.contains(m));
                        let a = choose|a: int| 0 <= a < s0.len() && s0[a] == m;
                        if a < p {
                            assert(s1[a] == m);
                        } else {
                            assert(s1[a + 1] == m);
                        }
                    }
                }
                assert forall|e: int| 0 <= e < s0.len() && e < p implies rank_before(ranks, #[trigger] s0[e] as int, k as int) by {
                    assert(rank@[s0[e] as int] <= rank@[k as int]);
                }
                assert forall|e: int| p <= e < s0.len() implies rank_before(ranks, k as int, #[trigger] s0[e] as int) by {
                    let first = s0[p as int] as int;
                    assert(rank@[first] > rank@[k as int]);
                    if e > p {
                        assert(rank_before(ranks, first, s0[e] as int));
                    }
                }
                assert forall|a: int, b: int|
                    #![trigger s1[a], s1[b]]
                    0 <= a < b < s1.len() implies rank_before(ranks, s1[a] as int, s1[b] as int) by {
                    if b < p {
                        assert(s1[a] == s0[a] && s1[b] == s0[b]);
                    } else if b == p {
                        assert(s1[a] == s0[a]);
                    } else if a < p {
                        assert(s1[a] == s0[a] && s1[b] == s0[b - 1]);
                    } else if a == p {
                        assert(s1[b] == s0[b - 1]);
                    } else {
                        assert(s1[a] == s0[a - 1] && s1[b] == s0[b - 1]);
                    }
                }
            }
            k = k + 1;
        }
        let mut out: Vec<FocusRef> = Vec::new();
        let mut j: usize = 0;
        while j < order.len()
            invariant
                j <= order@.len(),
                order@.len() == items.len(),
                items == refs_view(self.pinned@),
                forall|a: int| 0 <= a < order@.len() ==> (#[trigger] order@[a]) < items.len(),
                refs_view(out@) == order@.map_values(|k: usize| items[k as int]).take(j as int),
            decreases order@.len() - j,
        {
            let k = order[j];
            let ghost prev = refs_view(out@);
            out.push(FocusRef { project_id: self.pinned[k].project_id.clone(), card_id: self.pinned[k].card_id.clone() });
            proof {
                assert(refs_view(out@) =~= prev.push(items[k as int]));
                assert(order@.map_values(|k: usize| items[k as int]).take(j + 1) =~= order@.map_values(|k: usize| items[k as int]).take(
                    j as int,
                ).push(items[k as int]));
            }
            j = j + 1;
        }
        proof {
            assert(order@.map_values(|k: usize| items[k as int]).take(j as int) =~= order@.map_values(|k: usize| items[k as int]));
            assert(ranked(items, f, order@));
        }
        out
    }
}

} // verus!
