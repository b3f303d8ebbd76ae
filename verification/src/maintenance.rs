//! Maintenance plans: the checks that guard a plan, the size a plan may
//! retain, and the evenly spaced positions that rebalancing gives a
//! collection.
use crate::history::{insert_sorted, strictly_sorted, texts};
use crate::tags::{markdown_stem, md_stem};
use crate::focus::{key_lt, lemma_key_lt_total, lemma_key_lt_transitive, CardKey};
use crate::reply::{is_rejection, AppError};
use crate::text::{
    all_ascii, ascii_chars, ascii_string, bytes_lt, hex_digit, hex_fixed, lemma_ascii_encoding, lemma_text_lt_total,
    lemma_text_lt_transitive, text_eq, text_less, text_lt,
};
use crate::workflow::Step;
use crate::workflow_kind::WorkflowKind;
use vstd::prelude::*;

verus! {

/// The most bytes, before and after together, that a plan may retain.
pub const PLAN_BYTES: usize = 33_554_432;

/// How long a plan stays committable, in milliseconds.
pub const PLAN_LIFETIME: i64 = 300_000;

/// The bytes a plan retains.
pub open spec fn plan_bytes(steps: Seq<Step>) -> int
    decreases steps.len(),
{
    if steps.len() == 0 {
        0
    } else {
        plan_bytes(steps.drop_last()) + steps.last().after@.len() + match steps.last().before {
            Some(b) => b@.len() as int,
            None => 0,
        }
    }
}

/// A plan that retains more than 32 MiB is `422 MAINTENANCE_PLAN_TOO_LARGE`.
pub fn check_plan_size(steps: &Vec<Step>) -> (res: Result<(), AppError>)
    ensures
        plan_bytes(steps@) <= PLAN_BYTES ==> res is Ok,
        plan_bytes(steps@) > PLAN_BYTES ==> (res matches Err(e) && is_rejection(e, 422, "MAINTENANCE_PLAN_TOO_LARGE"@)),
{
    let mut total: u128 = 0;
    let mut i: usize = 0;
    while i < steps.len()
        invariant
            i <= steps.len(),
            total == plan_bytes(steps@.take(i as int)),
            total <= PLAN_BYTES,
        decreases steps.len() - i,
    {
        assert(steps@.take(i + 1).drop_last() =~= steps@.take(i as int));
        let before: usize = match &steps[i].before {
            Some(b) => b.len(),
            None => 0,
        };
        total = total + steps[i].after.len() as u128 + before as u128;
        if total > PLAN_BYTES as u128 {
            proof {
                lemma_plan_bytes_prefix(steps@, i + 1);
            }
            return Err(AppError::reject(422, "MAINTENANCE_PLAN_TOO_LARGE"));
        }
        i = i + 1;
    }
    assert(steps@.take(i as int) =~= steps@);
    Ok(())
}

proof fn lemma_plan_bytes_prefix(steps: Seq<Step>, i: int)
    requires
        0 <= i <= steps.len(),
    ensures
        plan_bytes(steps.take(i)) <= plan_bytes(steps),
    decreases steps.len() - i,
{
    if i < steps.len() {
        lemma_plan_bytes_prefix(steps, i + 1);
        assert(steps.take(i + 1).drop_last() =~= steps.take(i));
    } else {
        assert(steps.take(i) =~= steps);
    }
}

/// Only cards and milestones have positions to rebalance; any other kind
/// is `422 INVALID_COLLECTION`.
pub fn check_collection(kind: &str) -> (res: Result<(), AppError>)
    ensures
        (kind@ == "card"@ || kind@ == "milestone"@) ==> res is Ok,
        !(kind@ == "card"@ || kind@ == "milestone"@) ==> (res matches Err(e) && is_rejection(e, 422, "INVALID_COLLECTION"@)),
{
    if text_eq(kind, "card") || text_eq(kind, "milestone") {
        Ok(())
    } else {
        Err(AppError::reject(422, "INVALID_COLLECTION"))
    }
}

/// A rebalance reads the projection the client saw: another revision is
/// `409 PAGE_STALE`.
pub fn check_page(current: &str, expected: &str) -> (res: Result<(), AppError>)
    ensures
        current@ == expected@ ==> res is Ok,
        current@ != expected@ ==> (res matches Err(e) && is_rejection(e, 409, "PAGE_STALE"@)),
{
    if text_eq(current, expected) {
        Ok(())
    } else {
        Err(AppError::reject(409, "PAGE_STALE"))
    }
}

/// Unregistering and relocating change the workspace file the client saw:
/// another version is `412 VERSION_CONFLICT`.
pub fn check_workspace_version(current: &str, expected: &str) -> (res: Result<(), AppError>)
    ensures
        current@ == expected@ ==> res is Ok,
        current@ != expected@ ==> (res matches Err(e) && is_rejection(e, 412, "VERSION_CONFLICT"@)),
{
    if text_eq(current, expected) {
        Ok(())
    } else {
        Err(AppError::reject(412, "VERSION_CONFLICT"))
    }
}

/// No plan is made while the project or the workspace awaits recovery:
/// `409 RECOVERY_REQUIRED`.
pub fn check_recovery(project_pending: bool, workspace_pending: bool) -> (res: Result<(), AppError>)
    ensures
        !(project_pending || workspace_pending) ==> res is Ok,
        (project_pending || workspace_pending) ==> (res matches Err(e) && is_rejection(e, 409, "RECOVERY_REQUIRED"@)),
{
    if project_pending || workspace_pending {
        Err(AppError::reject(409, "RECOVERY_REQUIRED"))
    } else {
        Ok(())
    }
}

/// When a plan made at `now` expires.
pub fn plan_expiry(now: i64) -> (res: i64)
    requires
        now + PLAN_LIFETIME <= i64::MAX,
    ensures
        res == now + PLAN_LIFETIME,
{
    now + PLAN_LIFETIME
}

pub open spec fn pow16(w: nat) -> nat
    decreases w,
{
    if w == 0 {
        1
    } else {
        16 * pow16((w - 1) as nat)
    }
}

proof fn lemma_hex_fixed_len(v: nat, w: nat)
    ensures
        hex_fixed(v, w).len() == w,
    decreases w,
{
    if w > 0 {
        lemma_hex_fixed_len(v / 16, (w - 1) as nat);
    }
}

proof fn lemma_hex_fixed_ascii(v: nat, w: nat)
    ensures
        all_ascii(hex_fixed(v, w)),
    decreases w,
{
    if w > 0 {
        lemma_hex_fixed_ascii(v / 16, (w - 1) as nat);
        let p = hex_fixed(v / 16, (w - 1) as nat);
        let d = hex_digit((v % 16) as int);
        assert(d < 128);
        assert forall|i: int| 0 <= i < p.push(d).len() implies #[trigger] p.push(d)[i] < 128 by {
            if i < p.len() {
                assert(p.push(d)[i] == p[i]);
            }
        }
    }
}

/// A common prefix of equal length decides nothing: the order of two
/// strings of equal length carries over to any extensions.
proof fn lemma_bytes_lt_extend(x: Seq<u8>, y: Seq<u8>, c: u8, d: u8)
    requires
        x.len() == y.len(),
        bytes_lt(x, y),
    ensures
        bytes_lt(x.push(c), y.push(d)),
    decreases x.len(),
{
    if x.len() > 0 && x[0] == y[0] {
        lemma_bytes_lt_extend(x.drop_first(), y.drop_first(), c, d);
        assert(x.push(c).drop_first() =~= x.drop_first().push(c));
        assert(y.push(d).drop_first() =~= y.drop_first().push(d));
    }
}

proof fn lemma_bytes_lt_last(x: Seq<u8>, c: u8, d: u8)
    requires
        c < d,
    ensures
        bytes_lt(x.push(c), x.push(d)),
    decreases x.len(),
{
    if x.len() > 0 {
        lemma_bytes_lt_last(x.drop_first(), c, d);
        assert(x.push(c).drop_first() =~= x.drop_first().push(c));
        assert(x.push(d).drop_first() =~= x.drop_first().push(d));
    } else {
        assert(x.push(c) =~= seq![c]);
        assert(x.push(d) =~= seq![d]);
        assert(seq![c].drop_first() =~= Seq::<u8>::empty());
    }
}

/// Fixed-width hexadecimal keeps the order of the values it spells.
pub proof fn lemma_hex_fixed_order(a: nat, b: nat, w: nat)
    requires
        a < b < pow16(w),
    ensures
        bytes_lt(hex_fixed(a, w), hex_fixed(b, w)),
    decreases w,
{
    if w == 0 {
        assert(false);
    } else {
        let w1 = (w - 1) as nat;
        lemma_hex_fixed_len(a / 16, w1);
        lemma_hex_fixed_len(b / 16, w1);
        let p = pow16(w1);
        assert(b / 16 < p) by (nonlinear_arith)
            requires
                b < 16 * p,
        ;
        assert(a / 16 <= b / 16) by (nonlinear_arith)
            requires
                a < b,
        ;
        if a / 16 == b / 16 {
            assert(a % 16 < b % 16) by (nonlinear_arith)
                requires
                    a < b,
                    a / 16 == b / 16,
            ;
            let c = hex_digit((a % 16) as int);
            let d = hex_digit((b % 16) as int);
            assert(c < d);
            lemma_bytes_lt_last(hex_fixed(a / 16, w1), c, d);
        } else {
            lemma_hex_fixed_order(a / 16, b / 16, w1);
            lemma_bytes_lt_extend(hex_fixed(a / 16, w1), hex_fixed(b / 16, w1), hex_digit((a % 16) as int), hex_digit((b % 16) as int));
        }
    }
}

proof fn lemma_pow16_32()
    ensures
        pow16(32) == 0x1_0000_0000_0000_0000_0000_0000_0000_0000,
{
    reveal_with_fuel(pow16, 33);
}

/// `format!("{:032x}", value)`: the 32 lowercase hexadecimal digits of a
/// `u128`.
pub fn hex32(value: u128) -> (res: String)
    ensures
        res@ == ascii_chars(hex_fixed(value as nat, 32)),
{
    let mut digits: Vec<u8> = Vec::new();
    let mut v: u128 = value;
    let mut k: usize = 0;
    while k < 32
        invariant
            k <= 32,
            hex_fixed(value as nat, 32) == hex_fixed(v as nat, (32 - k) as nat) + digits@,
            digits@.len() == k,
        decreases 32 - k,
    {
        let n: u128 = v % 16;
        let d: u8 = if n < 10 { 48u8 + n as u8 } else { 87u8 + n as u8 };
        assert(d == hex_digit(n as int));
        proof {
            let w = (32 - k) as nat;
            assert(hex_fixed(v as nat, w) == hex_fixed((v / 16) as nat, (w - 1) as nat).push(d));
            assert(hex_fixed((v / 16) as nat, (w - 1) as nat).push(d) + digits@ =~= hex_fixed((v / 16) as nat, (w - 1) as nat) + seq![d].add(digits@));
        }
        digits.insert(0, d);
        assert(digits@ =~= seq![d].add(digits@.drop_first()));
        v = v / 16;
        k = k + 1;
    }
    assert(hex_fixed(v as nat, 0) =~= Seq::<u8>::empty());
    assert(hex_fixed(value as nat, 32) =~= digits@);
    proof {
        lemma_hex_fixed_ascii(value as nat, 32);
    }
    ascii_string(digits.as_slice())
}

/// The position value of the `n`th of `count` rebalanced items: the range of
/// `u128` cut into `count + 1` equal gaps.
pub open spec fn position_value(count: nat, n: nat) -> nat {
    (0xffff_ffff_ffff_ffff_ffff_ffff_ffff_ffffnat / (count + 1)) * (n + 1)
}

/// The positions of `count` rebalanced items, in their order.
pub open spec fn positions(count: nat) -> Seq<Seq<char>> {
    Seq::new(count, |n: int| ascii_chars(hex_fixed(position_value(count, n as nat), 32)))
}

proof fn lemma_position_bounds(count: nat, n: nat, m: nat)
    requires
        n < m < count,
        count < 0x1_0000_0000_0000_0000,
    ensures
        position_value(count, n) < position_value(count, m),
        position_value(count, m) <= 0xffff_ffff_ffff_ffff_ffff_ffff_ffff_ffff,
{
    let q = 0xffff_ffff_ffff_ffff_ffff_ffff_ffff_ffffnat / (count + 1);
    assert(q >= 1) by (nonlinear_arith)
        requires
            q == 0xffff_ffff_ffff_ffff_ffff_ffff_ffff_ffffnat / (count + 1),
            count < 0x1_0000_0000_0000_0000,
    ;
    assert(q * (n + 1) < q * (m + 1)) by (nonlinear_arith)
        requires
            q >= 1,
            n < m,
    ;
    assert(q * (m + 1) <= q * (count + 1)) by (nonlinear_arith)
        requires
            m < count,
    ;
    assert(q * (count + 1) <= 0xffff_ffff_ffff_ffff_ffff_ffff_ffff_ffff) by (nonlinear_arith)
        requires
            q == 0xffff_ffff_ffff_ffff_ffff_ffff_ffff_ffffnat / (count + 1),
            count + 1 > 0,
    ;
}

/// Rebalanced positions are strictly increasing: the items keep their order
/// and every gap is open for later insertions.
pub proof fn lemma_positions_increase(count: nat, i: int, j: int)
    requires
        0 <= i < j < count,
        count < 0x1_0000_0000_0000_0000,
    ensures
        text_lt(positions(count)[i], positions(count)[j]),
{
    lemma_position_bounds(count, i as nat, j as nat);
    lemma_pow16_32();
    let a = position_value(count, i as nat);
    let b = position_value(count, j as nat);
    lemma_hex_fixed_order(a, b, 32);
    lemma_hex_fixed_ascii(a, 32);
    lemma_hex_fixed_ascii(b, 32);
    lemma_ascii_encoding(hex_fixed(a, 32));
    lemma_ascii_encoding(hex_fixed(b, 32));
}

/// Every rebalanced position spells 32 hexadecimal digits.
pub proof fn lemma_positions_width(count: nat, i: int)
    requires
        0 <= i < count,
    ensures
        positions(count)[i].len() == 32,
{
    lemma_hex_fixed_len(position_value(count, i as nat), 32);
}

/// The positions that rebalancing gives `count` items, in their order.
pub fn rebalance_positions(count: usize) -> (res: Vec<String>)
    ensures
        res@.map_values(|s: String| s@) == positions(count as nat),
{
    let spacing: u128 = 0xffff_ffff_ffff_ffff_ffff_ffff_ffff_ffffu128 / (count as u128 + 1);
    let mut out: Vec<String> = Vec::new();
    let mut n: usize = 0;
    while n < count
        invariant
            n <= count,
            spacing == 0xffff_ffff_ffff_ffff_ffff_ffff_ffff_ffffnat / (count as nat + 1),
            out@.len() == n,
            forall|k: int| 0 <= k < n ==> (#[trigger] out@[k])@ == positions(count as nat)[k],
        decreases count - n,
    {
        assert(spacing * (n + 1) <= 0xffff_ffff_ffff_ffff_ffff_ffff_ffff_ffff) by (nonlinear_arith)
            requires
                spacing == 0xffff_ffff_ffff_ffff_ffff_ffff_ffff_ffffnat / (count as nat + 1),
                n < count,
        ;
        let value: u128 = spacing * (n as u128 + 1);
        out.push(hex32(value));
        n = n + 1;
    }
    assert(out@.map_values(|s: String| s@) =~= positions(count as nat));
    out
}

/// Maintenance commits take every plan but registrations, which have their
/// own commit: `422 PLAN_KIND_MISMATCH`.
pub fn check_maintenance_kind(kind: WorkflowKind) -> (res: Result<(), AppError>)
    ensures
        kind == WorkflowKind::Registration ==> (res matches Err(e) && is_rejection(e, 422, "PLAN_KIND_MISMATCH"@)),
        kind != WorkflowKind::Registration ==> res is Ok,
{
    if kind == WorkflowKind::Registration {
        Err(AppError::reject(422, "PLAN_KIND_MISMATCH"))
    } else {
        Ok(())
    }
}

/// Registration commits take only registration plans.
pub fn check_registration_kind(kind: WorkflowKind) -> (res: Result<(), AppError>)
    ensures
        kind != WorkflowKind::Registration ==> (res matches Err(e) && is_rejection(e, 422, "PLAN_KIND_MISMATCH"@)),
        kind == WorkflowKind::Registration ==> res is Ok,
{
    if kind != WorkflowKind::Registration {
        Err(AppError::reject(422, "PLAN_KIND_MISMATCH"))
    } else {
        Ok(())
    }
}

/// What committing a maintenance plan involves besides its steps: the
/// destination's store is held unless the project is being unregistered,
/// the index is rebuilt for index rebuilds, and the previous path's store is
/// released once a move or removal is done.
pub struct CommitNeeds {
    pub holds_store: bool,
    pub rebuilds_index: bool,
    pub releases_previous: bool,
}

pub fn commit_needs(kind: WorkflowKind) -> (res: CommitNeeds)
    ensures
        res.holds_store == (kind != WorkflowKind::Unregister),
        res.rebuilds_index == (kind == WorkflowKind::IndexRebuild),
        res.releases_previous == (kind == WorkflowKind::Unregister || kind == WorkflowKind::Relocate),
{
    CommitNeeds {
        holds_store: kind != WorkflowKind::Unregister,
        rebuilds_index: kind == WorkflowKind::IndexRebuild,
        releases_previous: kind == WorkflowKind::Unregister || kind == WorkflowKind::Relocate,
    }
}

/// A member of a collection by what rebalancing orders it by.
pub struct Member {
    pub status: Option<String>,
    pub position: Option<String>,
    pub id: String,
}

pub type MemberKey = (Option<Seq<char>>, CardKey);

pub open spec fn member_key(m: Member) -> MemberKey {
    (
        match m.status {
            Some(s) => Some(s@),
            None => None,
        },
        (
            match m.position {
                Some(p) => Some(p@),
                None => None,
            },
            m.id@,
        ),
    )
}

/// Rebalancing order: by status, a member without one first, then in card
/// order, by position and ID.
pub open spec fn member_lt(a: MemberKey, b: MemberKey) -> bool {
    match (a.0, b.0) {
        (None, Some(_)) => true,
        (Some(_), None) => false,
        (Some(x), Some(y)) => text_lt(x, y) || (x == y && key_lt(a.1, b.1)),
        (None, None) => key_lt(a.1, b.1),
    }
}

pub open spec fn member_before(keys: Seq<MemberKey>, i: int, j: int) -> bool {
    member_lt(keys[i], keys[j]) || (keys[i] == keys[j] && i < j)
}

/// `order` lists every member once, sorted stably in rebalancing order.
pub open spec fn rebalanced(members: Seq<Member>, order: Seq<usize>) -> bool {
    let keys = members.map_values(|m: Member| member_key(m));
    &&& order.len() == members.len()
    &&& forall|a: int| 0 <= a < order.len() ==> (#[trigger] order[a]) < members.len()
    &&& forall|k: usize| (k as int) < members.len() ==> #[trigger] order.contains(k)
    &&& forall|a: int, b: int| #![trigger order[a], order[b]] 0 <= a < b < order.len() ==> member_before(keys, order[a] as int, order[b] as int)
}

proof fn lemma_member_lt_total(a: MemberKey, b: MemberKey)
    ensures
        a == b || member_lt(a, b) || member_lt(b, a),
{
    lemma_key_lt_total(a.1, b.1);
    if let (Some(x), Some(y)) = (a.0, b.0) {
        lemma_text_lt_total(x, y);
    }
}

proof fn lemma_member_lt_transitive(a: MemberKey, b: MemberKey, c: MemberKey)
    requires
        member_lt(a, b),
        member_lt(b, c),
    ensures
        member_lt(a, c),
{
    if key_lt(a.1, b.1) && key_lt(b.1, c.1) {
        lemma_key_lt_transitive(a.1, b.1, c.1);
    }
    if let (Some(x), Some(y), Some(z)) = (a.0, b.0, c.0) {
        if text_lt(x, y) && text_lt(y, z) {
            lemma_text_lt_transitive(x, y, z);
        }
    }
}

fn opt_less(a: &Option<String>, b: &Option<String>) -> (res: bool)
    ensures
        res == match (opt_text(*a), opt_text(*b)) {
            (None, Some(_)) => true,
            (Some(x), Some(y)) => text_lt(x, y),
            _ => false,
        },
{
    match (a, b) {
        (None, Some(_)) => true,
        (Some(x), Some(y)) => text_less(x.as_str(), y.as_str()),
        _ => false,
    }
}

fn opt_same(a: &Option<String>, b: &Option<String>) -> (res: bool)
    ensures
        res == (opt_text(*a) == opt_text(*b)),
{
    match (a, b) {
        (None, None) => true,
        (Some(x), Some(y)) => text_eq(x.as_str(), y.as_str()),
        _ => false,
    }
}

pub open spec fn opt_text(o: Option<String>) -> Option<Seq<char>> {
    match o {
        Some(s) => Some(s@),
        None => None,
    }
}

fn member_less(a: &Member, b: &Member) -> (res: bool)
    ensures
        res == member_lt(member_key(*a), member_key(*b)),
{
    let card_less = opt_less(&a.position, &b.position) || (opt_same(&a.position, &b.position) && text_less(
        a.id.as_str(),
        b.id.as_str(),
    ));
    opt_less(&a.status, &b.status) || (opt_same(&a.status, &b.status) && card_less)
}

/// The order in which rebalancing gives a collection's members their new
/// positions.
pub fn rebalance_order(members: &Vec<Member>) -> (order: Vec<usize>)
    ensures
        rebalanced(members@, order@),
{
    let ghost keys = members@.map_values(|m: Member| member_key(m));
    let mut order: Vec<usize> = Vec::new();
    let mut k: usize = 0;
    while k < members.len()
        invariant
            k <= members@.len(),
            keys == members@.map_values(|m: Member| member_key(m)),
            order@.len() == k,
            forall|a: int| 0 <= a < order@.len() ==> (#[trigger] order@[a]) < k,
            forall|m: usize| m < k ==> #[trigger] order@.contains(m),
            forall|a: int, b: int|
                #![trigger order@[a], order@[b]]
                0 <= a < b < order@.len() ==> member_before(keys, order@[a] as int, order@[b] as int),
        decreases members@.len() - k,
    {
        let mut p: usize = 0;
        while p < order.len() && !member_less(&members[k], &members[order[p]])
            invariant
                p <= order@.len(),
                k < members@.len(),
                keys == members@.map_values(|m: Member| member_key(m)),
                forall|a: int| 0 <= a < order@.len() ==> (#[trigger] order@[a]) < k,
                forall|a: int| 0 <= a < p ==> !member_lt(keys[k as int], keys[#[trigger] order@[a] as int]),
            decreases order@.len() - p,
        {
            p = p + 1;
        }
        let ghost s0 = order@;
        order.insert(p, k);
        proof {
            let s1 = order@;
            assert(s1 =~= s0.insert(p as int, k));
            assert forall|a: int| 0 <= a < s1.len() implies (#[trigger] s1[a]) < k + 1 by {
                if a > p {
                    assert(s1[a] == s0[a - 1]);
                } else if a < p {
                    assert(s1[a] == s0[a]);
                }
            }
            assert forall|m: usize| m < k + 1 implies #[trigger] s1.contains(m) by {
                if m == k {
                    assert(s1[p as int] == k);
                } else {
                    assert(s0.contains(m));
                    let a = choose|a: int| 0 <= a < s0.len() && s0[a] == m;
                    if a < p {
                        assert(s1[a] == m);
                    } else {
                        assert(s1[a + 1] == m);
                    }
                }
            }
            assert forall|e: int| 0 <= e < s0.len() && e < p implies member_before(keys, #[trigger] s0[e] as int, k as int) by {
                lemma_member_lt_total(keys[s0[e] as int], keys[k as int]);
            }
            assert forall|e: int| p <= e < s0.len() implies member_before(keys, k as int, #[trigger] s0[e] as int) by {
                let first = s0[p as int] as int;
                assert(member_lt(keys[k as int], keys[first]));
                if e > p {
                    assert(member_before(keys, first, s0[e] as int));
                    if member_lt(keys[first], keys[s0[e] as int]) {
                        lemma_member_lt_transitive(keys[k as int], keys[first], keys[s0[e] as int]);
                    }
                }
            }
            assert forall|a: int, b: int|
                #![trigger s1[a], s1[b]]
                0 <= a < b < s1.len() implies member_before(keys, s1[a] as int, s1[b] as int) by {
                if b < p {
                    assert(s1[a] == s0[a] && s1[b] == s0[b]);
                } else if b == p {
                    assert(s1[a] == s0[a]);
                } else if a < p {
                    assert(s1[a] == s0[a] && s1[b] == s0[b - 1]);
                } else if a == p {
                    assert(s1[b] == s0[b - 1]);
                } else {
                    assert(s1[a] == s0[a - 1] && s1[b] == s0[b - 1]);
                }
            }
        }
        k = k + 1;
    }
    order
}

/// The Markdown files of a collection folder, by name, in byte order: what
/// a rebalance plan records of the folder, and what committing it finds
/// there again.
pub fn markdown_listing(names: &Vec<String>) -> (res: Vec<String>)
    ensures
        strictly_sorted(texts(res@)),
        forall|x: Seq<char>| texts(res@).contains(x) <==> (texts(names@).contains(x) && md_stem(x) is Some),
{
    let mut out: Vec<String> = Vec::new();
    let mut i: usize = 0;
    while i < names.len()
        invariant
            i <= names@.len(),
            strictly_sorted(texts(out@)),
            forall|x: Seq<char>| texts(out@).contains(x) <==> (texts(names@.take(i as int)).contains(x) && md_stem(x) is Some),
        decreases names@.len() - i,
    {
        let ghost before = texts(out@);
        proof {
            assert(texts(names@.take(i + 1)) =~= texts(names@.take(i as int)).push(names@[i as int]@));
        }
        if markdown_stem(names[i].as_str()).is_some() {
            insert_sorted(&mut out, names[i].as_str());
            proof {
                assert forall|x: Seq<char>| texts(out@).contains(x) <==> (texts(names@.take(i + 1)).contains(x) && md_stem(x) is Some) by {
                    assert(texts(out@).to_set().contains(x) == texts(out@).contains(x));
                    assert(before.to_set().contains(x) == before.contains(x));
                    let t = texts(names@.take(i + 1));
                    if t.contains(x) && x != names@[i as int]@ {
                        let k = choose|k: int| 0 <= k < t.len() && t[k] == x;
                        assert(texts(names@.take(i as int))[k] == x);
                    }
                    if texts(names@.take(i as int)).contains(x) {
                        let k = choose|k: int| 0 <= k < i && texts(names@.take(i as int))[k] == x;
                        assert(t[k] == x);
                    }
                    if x == names@[i as int]@ {
                        assert(t[i as int] == x);
                    }
                }
            }
        } else {
            proof {
                assert forall|x: Seq<char>| texts(out@).contains(x) <==> (texts(names@.take(i + 1)).contains(x) && md_stem(x) is Some) by {
                    let t = texts(names@.take(i + 1));
                    if t.contains(x) && x != names@[i as int]@ {
                        let k = choose|k: int| 0 <= k < t.len() && t[k] == x;
                        assert(texts(names@.take(i as int))[k] == x);
                    }
                    if texts(names@.take(i as int)).contains(x) {
                        let k = choose|k: int| 0 <= k < i && texts(names@.take(i as int))[k] == x;
                        assert(t[k] == x);
                    }
                }
            }
        }
        i = i + 1;
    }
    assert(names@.take(i as int) =~= names@);
    out
}

/// Whether a collection folder still lists the files a plan recorded.
pub fn same_listing(actual: &Vec<String>, expected: &Vec<String>) -> (res: bool)
    ensures
        res == (texts(actual@) == texts(expected@)),
{
    if actual.len() != expected.len() {
        assert(texts(actual@).len() != texts(expected@).len());
        return false;
    }
    let mut i: usize = 0;
    while i < actual.len()
        invariant
            i <= actual@.len(),
            actual@.len() == expected@.len(),
            forall|j: int| 0 <= j < i ==> actual@[j]@ == expected@[j]@,
        decreases actual@.len() - i,
    {
        if !text_eq(actual[i].as_str(), expected[i].as_str()) {
            assert(texts(actual@)[i as int] != texts(expected@)[i as int]);
            return false;
        }
        i = i + 1;
    }
    assert(texts(actual@) =~= texts(expected@));
    true
}

/// The operations a maintenance request may name.
#[derive(Debug, Clone, Copy, PartialEq, Eq, Structural)]
pub enum MaintenanceOperation {
    Normalize,
    Rebalance,
    Unregister,
    Relocate,
    IndexRebuild,
}

pub open spec fn operation_named(name: Seq<char>) -> Option<MaintenanceOperation> {
    if name == "normalize"@ {
        Some(MaintenanceOperation::Normalize)
    } else if name == "rebalance"@ {
        Some(MaintenanceOperation::Rebalance)
    } else if name == "unregister"@ {
        Some(MaintenanceOperation::Unregister)
    } else if name == "relocate"@ {
        Some(MaintenanceOperation::Relocate)
    } else if name == "index_rebuild"@ {
        Some(MaintenanceOperation::IndexRebuild)
    } else {
        None
    }
}

/// The fields each operation takes besides `operation`; all are required.
pub open spec fn operation_fields(op: MaintenanceOperation) -> Seq<Seq<char>> {
    match op {
        MaintenanceOperation::Normalize => seq!["project_id"@, "kind"@, "id"@, "expected_version"@],
        MaintenanceOperation::Rebalance => seq!["project_id"@, "kind"@, "expected_projection_revision"@],
        MaintenanceOperation::Unregister => seq!["project_id"@, "expected_workspace_version"@],
        MaintenanceOperation::Relocate => seq!["project_id"@, "new_absolute_path"@, "expected_workspace_version"@],
        MaintenanceOperation::IndexRebuild => seq!["project_id"@],
    }
}

/// A request of this operation has exactly its fields: none missing and
/// none unknown.
pub open spec fn fields_fit(op: MaintenanceOperation, fields: Seq<Seq<char>>) -> bool {
    &&& forall|i: int| 0 <= i < fields.len() ==> operation_fields(op).contains(#[trigger] fields[i])
    &&& forall|j: int| 0 <= j < operation_fields(op).len() ==> fields.contains(#[trigger] operation_fields(op)[j])
}

fn operation_of(name: &str) -> (res: Option<MaintenanceOperation>)
    ensures
        res == operation_named(name@),
{
    if text_eq(name, "normalize") {
        Some(MaintenanceOperation::Normalize)
    } else if text_eq(name, "rebalance") {
        Some(MaintenanceOperation::Rebalance)
    } else if text_eq(name, "unregister") {
        Some(MaintenanceOperation::Unregister)
    } else if text_eq(name, "relocate") {
        Some(MaintenanceOperation::Relocate)
    } else if text_eq(name, "index_rebuild") {
        Some(MaintenanceOperation::IndexRebuild)
    } else {
        None
    }
}

fn field_names(op: MaintenanceOperation) -> (res: Vec<&'static str>)
    ensures
        res@.map_values(|f: &'static str| f@) == operation_fields(op),
{
    let v: Vec<&'static str> = match op {
        MaintenanceOperation::Normalize => vec!["project_id", "kind", "id", "expected_version"],
        MaintenanceOperation::Rebalance => vec!["project_id", "kind", "expected_projection_revision"],
        MaintenanceOperation::Unregister => vec!["project_id", "expected_workspace_version"],
        MaintenanceOperation::Relocate => vec!["project_id", "new_absolute_path", "expected_workspace_version"],
        MaintenanceOperation::IndexRebuild => vec!["project_id"],
    };
    assert(v@.map_values(|f: &'static str| f@) =~= operation_fields(op));
    v
}

fn among(names: &Vec<&'static str>, name: &str) -> (res: bool)
    ensures
        res == names@.map_values(|f: &'static str| f@).contains(name@),
{
    let ghost nv = names@.map_values(|f: &'static str| f@);
    let mut i: usize = 0;
    while i < names.len()
        invariant
            i <= names.len(),
            nv == names@.map_values(|f: &'static str| f@),
            forall|j: int| 0 <= j < i ==> nv[j] != name@,
        decreases names.len() - i,
    {
        if text_eq(names[i], name) {
            assert(nv[i as int] == name@);
            return true;
        }
        i = i + 1;
    }
    false
}

fn among_strings(names: &Vec<String>, name: &str) -> (res: bool)
    ensures
        res == names@.map_values(|f: String| f@).contains(name@),
{
    let ghost nv = names@.map_values(|f: String| f@);
    let mut i: usize = 0;
    while i < names.len()
        invariant
            i <= names.len(),
            nv == names@.map_values(|f: String| f@),
            forall|j: int| 0 <= j < i ==> nv[j] != name@,
        decreases names.len() - i,
    {
        if text_eq(names[i].as_str(), name) {
            assert(nv[i as int] == name@);
            return true;
        }
        i = i + 1;
    }
    false
}

/// The shape of a maintenance request: `operation` must name one of the
/// operations and the other fields must be exactly that operation's. Any
/// other shape is `422 INVALID_MAINTENANCE_INPUT`. (The fields' values are
/// read by the request's decoder, which refuses them with the same code.)
pub fn maintenance_shape(operation: Option<&str>, fields: &Vec<String>) -> (res: Result<MaintenanceOperation, AppError>)
    ensures
        match operation {
            Some(name) => match operation_named(name@) {
                Some(op) => if fields_fit(op, fields@.map_values(|f: String| f@)) {
                    res == Ok::<MaintenanceOperation, AppError>(op)
                } else {
                    res matches Err(e) && is_rejection(e, 422, "INVALID_MAINTENANCE_INPUT"@)
                },
                None => res matches Err(e) && is_rejection(e, 422, "INVALID_MAINTENANCE_INPUT"@),
            },
            None => res matches Err(e) && is_rejection(e, 422, "INVALID_MAINTENANCE_INPUT"@),
        },
{
    let op = match operation {
        Some(name) => match operation_of(name) {
            Some(op) => op,
            None => return Err(AppError::reject(422, "INVALID_MAINTENANCE_INPUT")),
        },
        None => return Err(AppError::reject(422, "INVALID_MAINTENANCE_INPUT")),
    };
    let allowed = field_names(op);
    let ghost fv = fields@.map_values(|f: String| f@);
    let ghost av = allowed@.map_values(|f: &'static str| f@);
    let mut i: usize = 0;
    while i < fields.len()
        invariant
            i <= fields.len(),
            fv == fields@.map_values(|f: String| f@),
            av == allowed@.map_values(|f: &'static str| f@),
            av == operation_fields(op),
            operation matches Some(name) && operation_named(name@) == Some(op),
            forall|k: int| 0 <= k < i ==> operation_fields(op).contains(#[trigger] fv[k]),
        decreases fields.len() - i,
    {
        if !among(&allowed, fields[i].as_str()) {
            assert(fv[i as int] == fields@[i as int]@);
            assert(!fields_fit(op, fv));
            return Err(AppError::reject(422, "INVALID_MAINTENANCE_INPUT"));
        }
        i = i + 1;
    }
    let mut j: usize = 0;
    while j < allowed.len()
        invariant
            j <= allowed.len(),
            fv == fields@.map_values(|f: String| f@),
            av == allowed@.map_values(|f: &'static str| f@),
            av == operation_fields(op),
            operation matches Some(name) && operation_named(name@) == Some(op),
            forall|k: int| 0 <= k < fv.len() ==> operation_fields(op).contains(#[trigger] fv[k]),
            forall|k: int| 0 <= k < j ==> fv.contains(#[trigger] operation_fields(op)[k]),
        decreases allowed.len() - j,
    {
        if !among_strings(fields, allowed[j]) {
            assert(av[j as int] == allowed@[j as int]@);
            assert(!fields_fit(op, fv));
            return Err(AppError::reject(422, "INVALID_MAINTENANCE_INPUT"));
        }
        j = j + 1;
    }
    Ok(op)
}

} // verus!
