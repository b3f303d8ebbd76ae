//! Which expired records one bounded retention batch removes: terminal
//! commands past their replay window, pairings and sessions a week past
//! their end. Unresolved work is never removed, and a batch takes at most
//! its cap of each, oldest first; later passes continue any backlog.
use crate::clock::{instant, rfc3339_millis, MAX_INSTANT, MIN_INSTANT};
use crate::text::{text_eq, text_less, text_lt};
use vstd::prelude::*;

verus! {

/// How many commands, pairings or sessions one batch removes at most.
pub const RETENTION_BATCH: usize = 500;

/// How long ended pairings and sessions are kept, in milliseconds.
pub const ENDED_KEPT: i64 = 604_800_000;

/// The positions of the rows that qualify, in order.
pub open spec fn qualifying(e: Seq<bool>) -> Seq<int>
    decreases e.len(),
{
    if e.len() == 0 {
        seq![]
    } else {
        qualifying(e.drop_last()) + (if e.last() {
            seq![e.len() - 1]
        } else {
            seq![]
        })
    }
}

/// The first `cap` of them.
pub open spec fn capped(s: Seq<int>, cap: int) -> Seq<int> {
    if s.len() <= cap {
        s
    } else {
        s.take(cap)
    }
}

pub open spec fn positions(v: Seq<usize>) -> Seq<int> {
    v.map_values(|i: usize| i as int)
}

fn select(eligible: &Vec<bool>) -> (res: Vec<usize>)
    ensures
        positions(res@) == capped(qualifying(eligible@), RETENTION_BATCH as int),
{
    let mut out: Vec<usize> = Vec::new();
    let mut i: usize = 0;
    proof {
        assert(eligible@.take(0) =~= Seq::<bool>::empty());
        assert(positions(out@) =~= Seq::<int>::empty());
    }
    while i < eligible.len()
        invariant
            i <= eligible.len(),
            positions(out@) == capped(qualifying(eligible@.take(i as int)), RETENTION_BATCH as int),
            out@.len() <= RETENTION_BATCH,
        decreases eligible.len() - i,
    {
        let ghost before = qualifying(eligible@.take(i as int));
        assert(positions(out@).len() == out@.len());
        assert(eligible@.take(i + 1).drop_last() =~= eligible@.take(i as int));
        assert(eligible@.take(i + 1).last() == eligible@[i as int]);
        if eligible[i] {
            let ghost after = before + seq![i as int];
            assert(qualifying(eligible@.take(i + 1)) == after);
            if out.len() < RETENTION_BATCH {
                out.push(i);
                assert(before.len() < RETENTION_BATCH);
                assert(positions(out@) =~= after);
            } else {
                assert(before.len() >= RETENTION_BATCH);
                assert(after.take(RETENTION_BATCH as int) =~= before.take(RETENTION_BATCH as int));
            }
        } else {
            assert(qualifying(eligible@.take(i + 1)) =~= before);
        }
        i = i + 1;
    }
    assert(eligible@.take(i as int) =~= eligible@);
    out
}

/// A command as retention sees it, oldest received first.
pub struct CommandAge {
    pub expires_at: String,
    pub state: String,
    /// An unresolved write intent, workspace intent or unfinished job of
    /// the command.
    pub open_work: bool,
}

/// A command may go once its replay window has passed, it is committed or
/// rejected, and nothing of it is unresolved.
pub open spec fn command_expired(c: CommandAge, cutoff: Seq<char>) -> bool {
    &&& text_lt(c.expires_at@, cutoff)
    &&& (c.state@ == "committed"@ || c.state@ == "rejected"@)
    &&& !c.open_work
}

/// The commands a batch at `now` removes: the oldest expired ones, at most
/// a batch of them.
pub fn expired_commands(rows: &Vec<CommandAge>, now: i64) -> (res: Vec<usize>)
    requires
        MIN_INSTANT <= now <= MAX_INSTANT,
    ensures
        positions(res@) == capped(
            qualifying(rows@.map_values(|c: CommandAge| command_expired(c, rfc3339_millis(now as int)))),
            RETENTION_BATCH as int,
        ),
{
    let cutoff = instant(now);
    let ghost spec_e = rows@.map_values(|c: CommandAge| command_expired(c, rfc3339_millis(now as int)));
    let mut e: Vec<bool> = Vec::new();
    let mut i: usize = 0;
    while i < rows.len()
        invariant
            i <= rows.len(),
            cutoff@ == rfc3339_millis(now as int),
            spec_e == rows@.map_values(|c: CommandAge| command_expired(c, rfc3339_millis(now as int))),
            e@ == spec_e.take(i as int),
        decreases rows.len() - i,
    {
        let c = &rows[i];
        let terminal = text_eq(c.state.as_str(), "committed") || text_eq(c.state.as_str(), "rejected");
        let v = text_less(c.expires_at.as_str(), cutoff.as_str()) && terminal && !c.open_work;
        e.push(v);
        assert(spec_e.take(i + 1) =~= spec_e.take(i as int).push(v));
        i = i + 1;
    }
    assert(spec_e.take(i as int) =~= spec_e);
    select(&e)
}

/// A pairing as retention sees it.
pub struct PairingAge {
    pub expires_at: String,
    pub claim_grace_until: Option<String>,
}

/// A pairing goes a week after it expired and after any claim grace ended.
pub open spec fn pairing_ended(p: PairingAge, cutoff: Seq<char>) -> bool {
    &&& text_lt(p.expires_at@, cutoff)
    &&& match p.claim_grace_until {
        None => true,
        Some(g) => text_lt(g@, cutoff),
    }
}

/// A session as retention sees it.
pub struct SessionAge {
    pub expires_at: String,
    pub revoked_at: Option<String>,
    /// Whether a pairing names it as the last session it issued.
    pub last_issued: bool,
}

/// A session goes a week after it expired or was revoked, unless a pairing
/// still names it.
pub open spec fn session_ended(s: SessionAge, cutoff: Seq<char>) -> bool {
    &&& (text_lt(s.expires_at@, cutoff) || (s.revoked_at matches Some(r) && text_lt(r@, cutoff)))
    &&& !s.last_issued
}

/// The pairings a batch at `now` removes, at most a batch of them.
pub fn ended_pairings(rows: &Vec<PairingAge>, now: i64) -> (res: Vec<usize>)
    requires
        MIN_INSTANT + ENDED_KEPT <= now <= MAX_INSTANT,
    ensures
        positions(res@) == capped(
            qualifying(rows@.map_values(|p: PairingAge| pairing_ended(p, rfc3339_millis(now - ENDED_KEPT)))),
            RETENTION_BATCH as int,
        ),
{
    let cutoff = instant(now - ENDED_KEPT);
    let ghost spec_e = rows@.map_values(|p: PairingAge| pairing_ended(p, rfc3339_millis(now - ENDED_KEPT)));
    let mut e: Vec<bool> = Vec::new();
    let mut i: usize = 0;
    while i < rows.len()
        invariant
            i <= rows.len(),
            cutoff@ == rfc3339_millis(now - ENDED_KEPT),
            spec_e == rows@.map_values(|p: PairingAge| pairing_ended(p, rfc3339_millis(now - ENDED_KEPT))),
            e@ == spec_e.take(i as int),
        decreases rows.len() - i,
    {
        let p = &rows[i];
        let grace_over = match &p.claim_grace_until {
            None => true,
            Some(g) => text_less(g.as_str(), cutoff.as_str()),
        };
        let v = text_less(p.expires_at.as_str(), cutoff.as_str()) && grace_over;
        e.push(v);
        assert(spec_e.take(i + 1) =~= spec_e.take(i as int).push(v));
        i = i + 1;
    }
    assert(spec_e.take(i as int) =~= spec_e);
    select(&e)
}

/// The sessions a batch at `now` removes, at most a batch of them.
pub fn ended_sessions(rows: &Vec<SessionAge>, now: i64) -> (res: Vec<usize>)
    requires
        MIN_INSTANT + ENDED_KEPT <= now <= MAX_INSTANT,
    ensures
        positions(res@) == capped(
            qualifying(rows@.map_values(|s: SessionAge| session_ended(s, rfc3339_millis(now - ENDED_KEPT)))),
            RETENTION_BATCH as int,
        ),
{
    let cutoff = instant(now - ENDED_KEPT);
    let ghost spec_e = rows@.map_values(|s: SessionAge| session_ended(s, rfc3339_millis(now - ENDED_KEPT)));
    let mut e: Vec<bool> = Vec::new();
    let mut i: usize = 0;
    while i < rows.len()
        invariant
            i <= rows.len(),
            cutoff@ == rfc3339_millis(now - ENDED_KEPT),
            spec_e == rows@.map_values(|s: SessionAge| session_ended(s, rfc3339_millis(now - ENDED_KEPT))),
            e@ == spec_e.take(i as int),
        decreases rows.len() - i,
    {
        let s = &rows[i];
        let revoked = match &s.revoked_at {
            None => false,
            Some(r) => text_less(r.as_str(), cutoff.as_str()),
        };
        let v = (text_less(s.expires_at.as_str(), cutoff.as_str()) || revoked) && !s.last_issued;
        e.push(v);
        assert(spec_e.take(i + 1) =~= spec_e.take(i as int).push(v));
        i = i + 1;
    }
    assert(spec_e.take(i as int) =~= spec_e);
    select(&e)
}

/// A batch never removes more than its cap, and removes only rows that
/// qualify, oldest first.
pub proof fn lemma_batch_capped(e: Seq<bool>)
    ensures
        capped(qualifying(e), RETENTION_BATCH as int).len() <= RETENTION_BATCH,
        forall|k: int| 0 <= k < capped(qualifying(e), RETENTION_BATCH as int).len() ==> {
            let i = #[trigger] capped(qualifying(e), RETENTION_BATCH as int)[k];
            0 <= i < e.len() && e[i]
        },
        forall|a: int, b: int| 0 <= a < b < capped(qualifying(e), RETENTION_BATCH as int).len() ==>
            capped(qualifying(e), RETENTION_BATCH as int)[a] < capped(qualifying(e), RETENTION_BATCH as int)[b],
{
    lemma_qualifying(e);
}

proof fn lemma_qualifying(e: Seq<bool>)
    ensures
        qualifying(e).len() <= e.len(),
        forall|k: int| 0 <= k < qualifying(e).len() ==> 0 <= #[trigger] qualifying(e)[k] < e.len() && e[qualifying(e)[k]],
        forall|a: int, b: int| 0 <= a < b < qualifying(e).len() ==> qualifying(e)[a] < qualifying(e)[b],
    decreases e.len(),
{
    if e.len() > 0 {
        let w = e.drop_last();
        lemma_qualifying(w);
        assert forall|k: int| 0 <= k < qualifying(w).len() implies e[#[trigger] qualifying(w)[k]] by {
            assert(w[qualifying(w)[k]] == e[qualifying(w)[k]]);
        }
    }
}

} // verus!
