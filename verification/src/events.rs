//! The invalidation stream. Every projection change is published under a
//! cursor `epoch:sequence`; a client resumes from its cursor, and is told to
//! resynchronise when the stream restarted or the events it missed are no
//! longer retained.
use crate::text::{parse_i64, parse_i64_spec};
use std::collections::VecDeque;
use vstd::prelude::*;
use vstd::string::StringSliceAdditionalSpecFns;

verus! {

/// At most this many events are retained.
pub const MAX_EVENTS: usize = 10_000;

/// Events older than this, in milliseconds, are no longer replayed.
pub const REPLAY_WINDOW: i64 = 600_000;

#[derive(Debug, Clone, Copy, PartialEq, Eq, Structural)]
pub enum EventKind {
    Changed,
    HealthChanged,
    ResyncRequired,
}

#[derive(Debug, Clone, Copy, PartialEq, Eq, Structural)]
pub enum EventReason {
    SourceChanged,
    SourceRemoved,
    DocumentInvalid,
    ProjectionIssuesChanged,
    ProjectionReconciled,
    ProjectUnavailable,
    WorkspaceChanged,
    StreamEpochChanged,
    ReplayGap,
}

/// How the change stream spells an event's kind.
pub open spec fn kind_text(kind: EventKind) -> Seq<char> {
    match kind {
        EventKind::Changed => "changed"@,
        EventKind::HealthChanged => "health_changed"@,
        EventKind::ResyncRequired => "resync_required"@,
    }
}

/// How the change stream spells an event's reason.
pub open spec fn reason_text(reason: EventReason) -> Seq<char> {
    match reason {
        EventReason::SourceChanged => "source_changed"@,
        EventReason::SourceRemoved => "source_removed"@,
        EventReason::DocumentInvalid => "document_invalid"@,
        EventReason::ProjectionIssuesChanged => "projection_issues_changed"@,
        EventReason::ProjectionReconciled => "projection_reconciled"@,
        EventReason::ProjectUnavailable => "project_unavailable"@,
        EventReason::WorkspaceChanged => "workspace_changed"@,
        EventReason::StreamEpochChanged => "stream_epoch_changed"@,
        EventReason::ReplayGap => "replay_gap"@,
    }
}

impl EventKind {
    pub fn as_str(self) -> (res: &'static str)
        ensures
            res@ == kind_text(self),
    {
        match self {
            EventKind::Changed => "changed",
            EventKind::HealthChanged => "health_changed",
            EventKind::ResyncRequired => "resync_required",
        }
    }
}

impl EventReason {
    pub fn as_str(self) -> (res: &'static str)
        ensures
            res@ == reason_text(self),
    {
        match self {
            EventReason::SourceChanged => "source_changed",
            EventReason::SourceRemoved => "source_removed",
            EventReason::DocumentInvalid => "document_invalid",
            EventReason::ProjectionIssuesChanged => "projection_issues_changed",
            EventReason::ProjectionReconciled => "projection_reconciled",
            EventReason::ProjectUnavailable => "project_unavailable",
            EventReason::WorkspaceChanged => "workspace_changed",
            EventReason::StreamEpochChanged => "stream_epoch_changed",
            EventReason::ReplayGap => "replay_gap",
        }
    }
}

/// One published event. Its cursor is the stream epoch and `sequence`.
pub struct Event {
    pub kind: EventKind,
    pub sequence: i64,
    pub project_id: Option<String>,
    /// The changed document, as its type and ID.
    pub target: Option<(String, String)>,
    pub version: Option<String>,
    pub reason: EventReason,
    /// For cards: whether the card's labels changed.
    pub tags_changed: Option<bool>,
}

fn copy_text(s: &Option<String>) -> (res: Option<String>)
    ensures
        res == *s,
{
    match s {
        Some(t) => Some(t.clone()),
        None => None,
    }
}

impl Event {
    /// An exact copy.
    pub fn duplicate(&self) -> (res: Event)
        ensures
            res == *self,
    {
        Event {
            kind: self.kind,
            sequence: self.sequence,
            project_id: copy_text(&self.project_id),
            target: match &self.target {
                Some(t) => Some((t.0.clone(), t.1.clone())),
                None => None,
            },
            version: copy_text(&self.version),
            reason: self.reason,
            tags_changed: self.tags_changed,
        }
    }

    /// A bare event: no project, target, version or label flag.
    pub fn bare(kind: EventKind, sequence: i64, reason: EventReason) -> (res: Event)
        ensures
            res == bare_event(kind, sequence, reason),
    {
        Event { kind, sequence, project_id: None, target: None, version: None, reason, tags_changed: None }
    }
}

pub open spec fn bare_event(kind: EventKind, sequence: i64, reason: EventReason) -> Event {
    Event { kind, sequence, project_id: None, target: None, version: None, reason, tags_changed: None }
}

/// The oldest time still replayed at `now`.
pub open spec fn window_start(now: i64) -> int {
    now - REPLAY_WINDOW
}

/// Whether trimming stops at position `k`: the log from `k` on is short
/// enough and its first event is still inside the window.
pub open spec fn trim_stops_at(s: Seq<(i64, Event)>, now: i64, k: int) -> bool {
    k >= s.len() || !(s.len() - k > MAX_EVENTS || s[k].0 < window_start(now))
}

/// Where trimming from the front, starting at `k`, stops.
pub open spec fn trim_from(s: Seq<(i64, Event)>, now: i64, k: int) -> int
    decreases s.len() - k,
{
    if k >= s.len() || trim_stops_at(s, now, k) {
        k
    } else {
        trim_from(s, now, k + 1)
    }
}

/// The retained events after trimming: the oldest events are dropped while
/// there are too many or the oldest is outside the window.
pub open spec fn trimmed(s: Seq<(i64, Event)>, now: i64) -> Seq<(i64, Event)> {
    s.skip(trim_from(s, now, 0))
}

/// The index of the last `:` in a byte string.
pub open spec fn last_colon(s: Seq<u8>) -> Option<int>
    decreases s.len(),
{
    if s.len() == 0 {
        None
    } else if s.last() == 58u8 {
        Some(s.len() - 1)
    } else {
        last_colon(s.drop_last())
    }
}

/// The sequence a cursor names in the stream `epoch`: the text after its last
/// `:` read as an `i64`, when the text before it is the epoch.
pub open spec fn cursor_sequence(cursor: Seq<u8>, epoch: Seq<u8>) -> Option<int> {
    match last_colon(cursor) {
        Some(p) => if cursor.subrange(0, p) == epoch {
            parse_i64_spec(cursor.subrange(p + 1, cursor.len() as int))
        } else {
            None
        },
        None => None,
    }
}

/// The sequence of the first retained event inside the window, if any.
pub open spec fn first_in_window(s: Seq<(i64, Event)>, now: i64) -> Option<int>
    decreases s.len(),
{
    if s.len() == 0 {
        None
    } else if s[0].0 >= window_start(now) {
        Some(s[0].1.sequence as int)
    } else {
        first_in_window(s.drop_first(), now)
    }
}

/// The events still in the window with a sequence after `since`, in order.
pub open spec fn replay_after(s: Seq<(i64, Event)>, now: i64, since: int) -> Seq<Event>
    decreases s.len(),
{
    if s.len() == 0 {
        seq![]
    } else {
        let rest = replay_after(s.drop_first(), now, since);
        if s[0].0 >= window_start(now) && s[0].1.sequence > since {
            seq![s[0].1] + rest
        } else {
            rest
        }
    }
}

/// What a client resuming from `cursor` receives, given the stream's current
/// sequence: a resynchronisation request when the cursor is from another
/// epoch or unreadable, or when events between it and now are no longer
/// retained (or it is ahead of the stream); otherwise every retained event
/// after it.
pub open spec fn events_since_spec(
    s: Seq<(i64, Event)>,
    epoch: Seq<u8>,
    cursor: Seq<u8>,
    current: i64,
    now: i64,
) -> Seq<Event> {
    match cursor_sequence(cursor, epoch) {
        None => seq![bare_event(EventKind::ResyncRequired, current, EventReason::StreamEpochChanged)],
        Some(since) => {
            let first = match first_in_window(s, now) {
                Some(f) => f,
                None => current + 1,
            };
            if since > current || since < first - 1 {
                seq![bare_event(EventKind::ResyncRequired, current, EventReason::ReplayGap)]
            } else {
                replay_after(s, now, since)
            }
        },
    }
}

proof fn lemma_trim_from_bounds(s: Seq<(i64, Event)>, now: i64, k: int)
    requires
        0 <= k <= s.len(),
    ensures
        k <= trim_from(s, now, k) <= s.len(),
        trim_stops_at(s, now, trim_from(s, now, k)),
    decreases s.len() - k,
{
    if !(k >= s.len() || trim_stops_at(s, now, k)) {
        lemma_trim_from_bounds(s, now, k + 1);
    }
}

/// Trimming keeps at most `MAX_EVENTS` events, only the newest ones, and
/// the oldest it keeps is inside the replay window.
pub proof fn lemma_trim_bounded(s: Seq<(i64, Event)>, now: i64)
    ensures
        trimmed(s, now).len() <= MAX_EVENTS,
        trimmed(s, now) == s.subrange(s.len() - trimmed(s, now).len(), s.len() as int),
        trimmed(s, now).len() > 0 ==> trimmed(s, now)[0].0 >= window_start(now),
{
    lemma_trim_from_bounds(s, now, 0);
    let k = trim_from(s, now, 0);
    assert(s.skip(k) =~= s.subrange(s.len() - (s.len() - k), s.len() as int));
}

/// A client whose cursor is at the stream's head receives nothing: every
/// retained event is at or before the current sequence.
pub proof fn lemma_caught_up_receives_nothing(s: Seq<(i64, Event)>, epoch: Seq<u8>, cursor: Seq<u8>, current: i64, now: i64)
    requires
        cursor_sequence(cursor, epoch) == Some(current as int),
        forall|i: int| 0 <= i < s.len() ==> (#[trigger] s[i]).1.sequence <= current,
    ensures
        events_since_spec(s, epoch, cursor, current, now).len() == 0,
{
    lemma_replay_after_empty(s, now, current as int);
    lemma_first_in_window_bounded(s, now, current as int);
}

proof fn lemma_first_in_window_bounded(s: Seq<(i64, Event)>, now: i64, bound: int)
    requires
        forall|i: int| 0 <= i < s.len() ==> (#[trigger] s[i]).1.sequence <= bound,
    ensures
        first_in_window(s, now) matches Some(f) ==> f <= bound,
    decreases s.len(),
{
    if s.len() > 0 {
        assert forall|i: int| 0 <= i < s.drop_first().len() implies (#[trigger] s.drop_first()[i]).1.sequence <= bound by {
            assert(s.drop_first()[i] == s[i + 1]);
        }
        lemma_first_in_window_bounded(s.drop_first(), now, bound);
        assert(s[0].1.sequence <= bound);
    }
}

proof fn lemma_replay_after_empty(s: Seq<(i64, Event)>, now: i64, since: int)
    requires
        forall|i: int| 0 <= i < s.len() ==> (#[trigger] s[i]).1.sequence <= since,
    ensures
        replay_after(s, now, since).len() == 0,
    decreases s.len(),
{
    if s.len() > 0 {
        assert forall|i: int| 0 <= i < s.drop_first().len() implies (#[trigger] s.drop_first()[i]).1.sequence <= since by {
            assert(s.drop_first()[i] == s[i + 1]);
        }
        lemma_replay_after_empty(s.drop_first(), now, since);
    }
}

/// A cursor of another stream, or one that cannot be read, is always told
/// to resynchronise, and only that.
pub proof fn lemma_foreign_cursor_resyncs(s: Seq<(i64, Event)>, epoch: Seq<u8>, cursor: Seq<u8>, current: i64, now: i64)
    requires
        cursor_sequence(cursor, epoch) is None,
    ensures
        events_since_spec(s, epoch, cursor, current, now) == seq![
            bare_event(EventKind::ResyncRequired, current, EventReason::StreamEpochChanged),
        ],
{
}

/// The replay log of one index instance.
pub struct EventLog {
    epoch: String,
    events: VecDeque<(i64, Event)>,
}

impl EventLog {
    pub closed spec fn view(&self) -> Seq<(i64, Event)> {
        self.events@
    }

    /// The stream epoch, in the bytes that cursors carry.
    pub closed spec fn epoch_bytes(&self) -> Seq<u8> {
        vstd::utf8::encode_utf8(self.epoch@)
    }

    pub closed spec fn epoch_text(&self) -> Seq<char> {
        self.epoch@
    }

    pub fn epoch(&self) -> (res: &str)
        ensures
            res@ == self.epoch_text(),
            res.spec_bytes() == self.epoch_bytes(),
    {
        self.epoch.as_str()
    }

    pub fn new(epoch: String) -> (res: EventLog)
        ensures
            res.epoch_text() == epoch@,
            res.epoch_bytes() == vstd::utf8::encode_utf8(epoch@),
            res.view() == Seq::<(i64, Event)>::empty(),
    {
        EventLog { epoch, events: VecDeque::new() }
    }

    pub fn len(&self) -> (res: usize)
        ensures
            res == self.view().len(),
    {
        self.events.len()
    }

    /// Drops the oldest events while more than `MAX_EVENTS` are retained or the
    /// oldest is outside the window at `now`.
    pub fn trim(&mut self, now: i64)
        ensures
            final(self).epoch_bytes() == old(self).epoch_bytes(),
            final(self).epoch_text() == old(self).epoch_text(),
            final(self).view() == trimmed(old(self).view(), now),
    {
        let ghost s = self.events@;
        let ghost mut k: int = 0;
        let cutoff: i128 = now as i128 - REPLAY_WINDOW as i128;
        proof {
            assert(s.skip(0) =~= s);
        }
        loop
            invariant
                0 <= k <= s.len(),
                self.events@ == s.skip(k),
                trim_from(s, now, 0) == trim_from(s, now, k),
                self.epoch == old(self).epoch,
                cutoff == window_start(now),
            ensures
                self.events@ == s.skip(trim_from(s, now, 0)),
                self.epoch == old(self).epoch,
            decreases s.len() - k,
        {
            let n = self.events.len();
            if n == 0 {
                proof {
                    assert(k == s.len());
                }
                break;
            }
            let too_old = (self.events[0].0 as i128) < cutoff;
            proof {
                assert(self.events@[0] == s[k]);
            }
            if !(n > MAX_EVENTS || too_old) {
                proof {
                    assert(trim_stops_at(s, now, k));
                }
                break;
            }
            self.events.pop_front();
            proof {
                assert(s.skip(k).subrange(1, s.skip(k).len() as int) =~= s.skip(k + 1));
                k = k + 1;
            }
        }
    }

    /// Publishes one event at `now`, then trims.
    pub fn record(&mut self, now: i64, event: Event)
        ensures
            final(self).epoch_bytes() == old(self).epoch_bytes(),
            final(self).epoch_text() == old(self).epoch_text(),
            final(self).view() == trimmed(old(self).view().push((now, event)), now),
    {
        self.events.push_back((now, event));
        self.trim(now);
    }

    /// Publishes a batch of events at `now` in order, then trims.
    pub fn record_all(&mut self, now: i64, events: Vec<Event>)
        ensures
            final(self).epoch_bytes() == old(self).epoch_bytes(),
            final(self).epoch_text() == old(self).epoch_text(),
            final(self).view() == trimmed(
                old(self).view() + events@.map_values(|e: Event| (now, e)),
                now,
            ),
    {
        let ghost s0 = self.events@;
        let ghost all = events@;
        let total = events.len();
        assert(all.len() == total);
        let mut batch = events;
        let mut taken: usize = 0;
        proof {
            assert(all.skip(0) =~= all);
            assert(s0 + all.take(0).map_values(|e: Event| (now, e)) =~= s0);
        }
        while batch.len() > 0
            invariant
                batch@.len() + taken == all.len(),
                all.len() <= usize::MAX,
                batch@ == all.skip(taken as int),
                self.events@ == s0 + all.take(taken as int).map_values(|e: Event| (now, e)),
                self.epoch == old(self).epoch,
            decreases batch@.len(),
        {
            let e = batch.remove(0);
            proof {
                assert(e == all[taken as int]);
                assert(all.skip(taken as int).remove(0) =~= all.skip(taken + 1));
            }
            self.events.push_back((now, e));
            proof {
                assert(all.take(taken + 1).map_values(|e: Event| (now, e)) =~= all.take(
                    taken as int,
                ).map_values(|e: Event| (now, e)).push((now, all[taken as int])));
            }
            taken = taken + 1;
        }
        proof {
            assert(all.take(taken as int) =~= all);
        }
        self.trim(now);
    }

    /// The events a client resuming from `cursor` receives; `current` is the
    /// stream's current sequence.
    pub fn events_since(&self, cursor: &str, current: i64, now: i64) -> (res: Vec<Event>)
        ensures
            res@ == events_since_spec(self.view(), self.epoch_bytes(), cursor.spec_bytes(), current, now),
    {
        let since = match cursor_sequence_of(cursor.as_bytes(), self.epoch.as_str().as_bytes()) {
            Some(v) => v,
            None => {
                let mut out = Vec::new();
                out.push(Event::bare(EventKind::ResyncRequired, current, EventReason::StreamEpochChanged));
                proof {
                    assert(out@ =~= seq![bare_event(EventKind::ResyncRequired, current, EventReason::StreamEpochChanged)]);
                }
                return out;
            },
        };
        let ghost s = self.events@;
        let cutoff: i128 = now as i128 - REPLAY_WINDOW as i128;
        let mut first: i128 = current as i128 + 1;
        let mut found = false;
        let mut i: usize = 0;
        proof {
            assert(s.skip(0) =~= s);
        }
        while i < self.events.len() && !found
            invariant
                i <= s.len(),
                s == self.events@,
                cutoff == window_start(now),
                !found ==> first_in_window(s, now) == first_in_window(s.skip(i as int), now),
                !found ==> first == current + 1,
                found ==> first_in_window(s, now) == Some(first as int),
                i64::MIN <= first <= i64::MAX as int + 1,
            decreases s.len() - i + (if found { 0int } else { 1int }),
        {
            assert(s.skip(i as int).drop_first() =~= s.skip(i + 1));
            assert(s.skip(i as int)[0] == s[i as int]);
            if (self.events[i].0 as i128) >= cutoff {
                first = self.events[i].1.sequence as i128;
                found = true;
            } else {
                i = i + 1;
            }
        }
        proof {
            if !found {
                assert(s.skip(i as int) =~= Seq::<(i64, Event)>::empty());
            }
        }
        let ghost expected_first: int = match first_in_window(s, now) {
            Some(f) => f,
            None => current + 1,
        };
        assert(first == expected_first);
        if (since as i128) > (current as i128) || (since as i128) < first - 1 {
            let mut out = Vec::new();
            out.push(Event::bare(EventKind::ResyncRequired, current, EventReason::ReplayGap));
            proof {
                assert(out@ =~= seq![bare_event(EventKind::ResyncRequired, current, EventReason::ReplayGap)]);
            }
            return out;
        }
        let mut out: Vec<Event> = Vec::new();
        let mut j: usize = 0;
        proof {
            assert(s.skip(0) =~= s);
        }
        while j < self.events.len()
            invariant
                j <= s.len(),
                s == self.events@,
                cutoff == window_start(now),
                out@ + replay_after(s.skip(j as int), now, since as int) == replay_after(s, now, since as int),
            decreases s.len() - j,
        {
            assert(s.skip(j as int).drop_first() =~= s.skip(j + 1));
            assert(s.skip(j as int)[0] == s[j as int]);
            if (self.events[j].0 as i128) >= cutoff && self.events[j].1.sequence > since {
                let e = self.events[j].1.duplicate();
                let ghost before = out@;
                out.push(e);
                proof {
                    assert(out@ + replay_after(s.skip(j + 1), now, since as int) =~= before + (seq![e]
                        + replay_after(s.skip(j + 1), now, since as int)));
                }
            }
            j = j + 1;
        }
        proof {
            assert(s.skip(j as int) =~= Seq::<(i64, Event)>::empty());
            assert(out@ + Seq::<Event>::empty() =~= out@);
        }
        out
    }
}

/// Reads the sequence that a cursor names in stream `epoch`.
pub fn cursor_sequence_of(cursor: &[u8], epoch: &[u8]) -> (res: Option<i64>)
    ensures
        match res {
            Some(v) => cursor_sequence(cursor@, epoch@) == Some(v as int),
            None => cursor_sequence(cursor@, epoch@) is None,
        },
{
    let mut p: usize = cursor.len();
    assert(cursor@.take(p as int) =~= cursor@);
    while p > 0 && cursor[p - 1] != 58u8
        invariant
            p <= cursor.len(),
            last_colon(cursor@) == last_colon(cursor@.take(p as int)),
        decreases p,
    {
        assert(cursor@.take(p as int).drop_last() =~= cursor@.take(p - 1));
        p = p - 1;
    }
    if p == 0 {
        proof {
            assert(cursor@.take(0) =~= Seq::<u8>::empty());
        }
        return None;
    }
    let colon = p - 1;
    proof {
        assert(cursor@.take(p as int).last() == 58u8);
        assert(cursor@ .take(cursor@.len() as int) =~= cursor@);
    }
    proof {
        assert(last_colon(cursor@) == Some(colon as int));
    }
    if colon != epoch.len() {
        proof {
            assert(cursor@.subrange(0, colon as int).len() != epoch@.len());
        }
        return None;
    }
    let mut i: usize = 0;
    while i < colon
        invariant
            i <= colon,
            colon == epoch.len(),
            colon < cursor.len(),
            last_colon(cursor@) == Some(colon as int),
            forall|j: int| 0 <= j < i ==> cursor@[j] == epoch@[j],
        decreases colon - i,
    {
        if cursor[i] != epoch[i] {
            proof {
                assert(cursor@.subrange(0, colon as int)[i as int] != epoch@[i as int]);
                assert(cursor@.subrange(0, colon as int) != epoch@);
            }
            return None;
        }
        i = i + 1;
    }
    proof {
        assert(cursor@.subrange(0, colon as int) =~= epoch@);
    }
    let tail = vstd::slice::slice_subrange(cursor, colon + 1, cursor.len());
    parse_i64(tail)
}

} // verus!
