//! The batched loader: collects the keys submitted during one evaluation
//! pass, partitions them by (column set, filter), plans exactly one bulk
//! fetch per partition, and resolves every submitted key from its
//! partition's outcome.
//!
//! A loader instance is scoped to one evaluation pass; nothing persists
//! across passes.  Submission only registers interest — no fetch happens
//! until the whole pass has been planned.

use vstd::prelude::*;

use crate::keys::BatchKey;
use crate::keys::group_eq;
use crate::keys::group_eqv;
use crate::keys::key_eq;
use crate::keys::key_eqv;
use crate::keys::opt_str_eq;
use crate::keys::opt_view;
use crate::rows::FetchError;
use crate::rows::Media;
use crate::rows::VariantGQL;
use crate::rows::media_pred;
use crate::rows::media_rows_for_key;
use crate::rows::variant_pred;
use crate::rows::variant_rows_for_key;

verus! {

/// One planned bulk fetch: the shared column set and filter of its
/// partition, the distinct entity references to fetch for, and the handles
/// of the submitted keys it serves.
pub struct FetchPlan {
    pub columns: Vec<String>,
    pub filter: Option<String>,
    pub entity_ids: Vec<i32>,
    pub members: Vec<usize>,
}

/// Whether plan `p` carries exactly key `k`'s grouping identity.
pub open spec fn plan_group_matches(p: FetchPlan, k: BatchKey) -> bool {
    &&& crate::keys::col_set(p.columns) == crate::keys::col_set(k.columns)
    &&& opt_view(p.filter) == opt_view(k.filter)
}

/// Whether two plans carry the same grouping identity.
pub open spec fn plans_group_eqv(p: FetchPlan, q: FetchPlan) -> bool {
    &&& crate::keys::col_set(p.columns) == crate::keys::col_set(q.columns)
    &&& opt_view(p.filter) == opt_view(q.filter)
}

/// The sequence holds no entity reference twice.
pub open spec fn no_dup_i32(s: Seq<i32>) -> bool {
    forall|a: int, b: int| 0 <= a < b < s.len() ==> s[a] != s[b]
}

/// Every gathered entity reference is the entity of some member key.
pub open spec fn entities_covered(keys: Seq<BatchKey>, members: Seq<usize>, ids: Seq<i32>) -> bool {
    forall|id: i32|
        #[trigger] ids.contains(id) ==> exists|mi: int|
            0 <= mi < members.len() && keys[(#[trigger] members[mi]) as int].entity_id == id
}

/// Every member key's entity reference has been gathered.
pub open spec fn entities_complete(keys: Seq<BatchKey>, members: Seq<usize>, ids: Seq<i32>) -> bool {
    forall|mi: int|
        0 <= mi < members.len() ==> ids.contains(keys[(#[trigger] members[mi]) as int].entity_id)
}

/// Every member handle of `p` names a pending key of `p`'s group.
pub open spec fn plan_members_ok(keys: Seq<BatchKey>, p: FetchPlan) -> bool {
    forall|m: int|
        0 <= m < p.members@.len() ==> (#[trigger] p.members@[m]) < keys.len()
            && plan_group_matches(p, keys[p.members@[m] as int])
}

/// The member handles are strictly increasing: submission order is kept.
pub open spec fn members_ascending(members: Seq<usize>) -> bool {
    forall|a: int, b: int| 0 <= a < b < members.len() ==> members[a] < members[b]
}

/// Every pending key of `p`'s group is among `p`'s members.
pub open spec fn plan_members_complete(keys: Seq<BatchKey>, p: FetchPlan) -> bool {
    forall|k: int|
        0 <= k < keys.len() && plan_group_matches(p, #[trigger] keys[k]) ==> p.members@.contains(
            k as usize,
        )
}

/// The plan's column list is, as a sequence, exactly the column list of
/// one of its member keys — so the order and duplicate-freedom that
/// projection establishes carry through to the generated query text.
pub open spec fn plan_columns_from_member(keys: Seq<BatchKey>, p: FetchPlan) -> bool {
    exists|mi: int|
        0 <= mi < p.members@.len() && p.columns.deep_view() == keys[(#[trigger] p.members@[mi]) as int].columns.deep_view()
}

/// The plan's entity references are exactly those of its member keys,
/// without duplicates.
pub open spec fn plan_entities_ok(keys: Seq<BatchKey>, p: FetchPlan) -> bool {
    &&& no_dup_i32(p.entity_ids@)
    &&& entities_covered(keys, p.members@, p.entity_ids@)
    &&& entities_complete(keys, p.members@, p.entity_ids@)
}

/// No two plans share a grouping identity: one fetch per group.
pub open spec fn plans_distinct(plans: Seq<FetchPlan>) -> bool {
    forall|i: int, j: int|
        0 <= i < j < plans.len() ==> !plans_group_eqv(#[trigger] plans[i], #[trigger] plans[j])
}

/// Whether some plan carries key `k`'s grouping identity.
pub open spec fn key_covered(keys: Seq<BatchKey>, plans: Seq<FetchPlan>, k: int) -> bool {
    exists|p: int| 0 <= p < plans.len() && plan_group_matches(#[trigger] plans[p], keys[k])
}

/// Every pending key has a plan of its group.
pub open spec fn plan_covers(keys: Seq<BatchKey>, plans: Seq<FetchPlan>) -> bool {
    forall|k: int| 0 <= k < keys.len() ==> #[trigger] key_covered(keys, plans, k)
}

/// A well-formed dispatch plan for the pending keys: one plan per distinct
/// (column set, filter) group — never more, since every plan serves at
/// least one key — each serving exactly the keys of its group in
/// submission order, carrying the distinct entity references of those
/// keys, and carrying one member key's column list verbatim.
pub open spec fn wf_plan(keys: Seq<BatchKey>, plans: Seq<FetchPlan>) -> bool {
    &&& plans_distinct(plans)
    &&& plan_covers(keys, plans)
    &&& forall|p: int|
        0 <= p < plans.len() ==> plan_members_ok(keys, #[trigger] plans[p])
            && plan_members_complete(keys, plans[p]) && plan_entities_ok(keys, plans[p])
            && members_ascending(plans[p].members@) && plans[p].members@.len() > 0
            && plan_columns_from_member(keys, plans[p])
}

/// The index of the first pending key structurally equal to `k`, or the
/// number of pending keys when none is.
pub open spec fn first_match(keys: Seq<BatchKey>, k: BatchKey) -> int
    decreases keys.len(),
{
    if keys.len() == 0 {
        0
    } else if key_eqv(keys.first(), k) {
        0
    } else {
        1 + first_match(keys.drop_first(), k)
    }
}

/// The pending keys after submitting `k`: unchanged when a structurally
/// equal key is already pending, extended by `k` otherwise.
pub open spec fn spec_submit(keys: Seq<BatchKey>, k: BatchKey) -> Seq<BatchKey> {
    if first_match(keys, k) < keys.len() {
        keys
    } else {
        keys.push(k)
    }
}

/// Bounds and meaning of `first_match`: it points at a structurally equal
/// key when one is pending, and nothing before it matches.
pub proof fn lemma_first_match(keys: Seq<BatchKey>, k: BatchKey)
    ensures
        0 <= first_match(keys, k) <= keys.len(),
        first_match(keys, k) < keys.len() ==> key_eqv(keys[first_match(keys, k)], k),
        forall|j: int| 0 <= j < first_match(keys, k) ==> !key_eqv(#[trigger] keys[j], k),
    decreases keys.len(),
{
    if keys.len() > 0 && !key_eqv(keys.first(), k) {
        lemma_first_match(keys.drop_first(), k);
        let fm = first_match(keys, k);
        assert forall|j: int| 0 <= j < fm implies !key_eqv(#[trigger] keys[j], k) by {
            if j >= 1 {
                assert(keys.drop_first()[j - 1] == keys[j]);
            }
        }
        if fm < keys.len() {
            assert(keys.drop_first()[fm - 1] == keys[fm]);
        }
    }
}

/// `first_match` is pinned down by a scan: if no key before `i` matches and
/// `i` is a match (or the end), then `i` is the first match.
pub proof fn lemma_first_match_is(keys: Seq<BatchKey>, k: BatchKey, i: int)
    requires
        0 <= i <= keys.len(),
        forall|j: int| 0 <= j < i ==> !key_eqv(#[trigger] keys[j], k),
        i < keys.len() ==> key_eqv(keys[i], k),
    ensures
        first_match(keys, k) == i,
{
    lemma_first_match(keys, k);
    let fm = first_match(keys, k);
    if fm < i {
        assert(key_eqv(keys[fm], k));
        assert(!key_eqv(keys[fm], k));
    }
    if fm > i {
        assert(!key_eqv(keys[i], k));
    }
}

/// The per-pass registry of submitted keys.
pub struct BatchLoader {
    pub keys: Vec<BatchKey>,
}

impl BatchLoader {
    /// A fresh loader for one evaluation pass, with nothing pending.
    pub fn new() -> (r: Self)
        ensures
            r.keys@.len() == 0,
    {
        BatchLoader { keys: Vec::new() }
    }

    /// Registers interest in `key` without fetching anything.  A key
    /// structurally equal to one already pending is not registered again:
    /// both submissions share one handle, so the same data is never
    /// fetched twice in a pass.  Returns the handle under which the key
    /// resolves.
    pub fn submit(&mut self, key: BatchKey) -> (h: usize)
        ensures
            h as int == first_match(old(self).keys@, key),
            final(self).keys@ == spec_submit(old(self).keys@, key),
    {
        let n = self.keys.len();
        let mut i: usize = 0;
        while i < n
            invariant
                i <= n,
                n == self.keys@.len(),
                self.keys@ == old(self).keys@,
                forall|j: int| 0 <= j < i ==> !key_eqv(#[trigger] self.keys@[j], key),
            decreases n - i,
        {
            if key_eq(&self.keys[i], &key) {
                proof {
                    lemma_first_match_is(self.keys@, key, i as int);
                }
                return i;
            }
            i = i + 1;
        }
        proof {
            lemma_first_match_is(self.keys@, key, n as int);
        }
        self.keys.push(key);
        n
    }

    /// The number of pending keys (and of handles given out).
    pub fn pending(&self) -> (n: usize)
        ensures
            n == self.keys@.len(),
    {
        self.keys.len()
    }
}

/// Idempotent re-submission: after a key is submitted, submitting a
/// structurally equal key returns the same handle and leaves the pending
/// set unchanged — so both submissions resolve to the same value and only
/// one fetch is ever planned for them.
pub proof fn lemma_submit_idempotent(keys: Seq<BatchKey>, k1: BatchKey, k2: BatchKey)
    requires
        key_eqv(k1, k2),
    ensures
        first_match(spec_submit(keys, k1), k2) == first_match(keys, k1),
        spec_submit(spec_submit(keys, k1), k2) == spec_submit(keys, k1),
{
    lemma_first_match(keys, k1);
    let fm = first_match(keys, k1);
    let keys1 = spec_submit(keys, k1);
    if fm < keys.len() {
        assert forall|j: int| 0 <= j < fm implies !key_eqv(#[trigger] keys1[j], k2) by {
            assert(!key_eqv(keys[j], k1));
        }
        assert(key_eqv(keys1[fm], k2));
        lemma_first_match_is(keys1, k2, fm);
    } else {
        assert(keys1 == keys.push(k1));
        assert forall|j: int| 0 <= j < keys.len() implies !key_eqv(#[trigger] keys1[j], k2) by {
            assert(keys1[j] == keys[j]);
            assert(!key_eqv(keys[j], k1));
        }
        assert(keys1[keys.len() as int] == k1);
        assert(key_eqv(keys1[keys.len() as int], k2));
        lemma_first_match_is(keys1, k2, keys.len() as int);
    }
}

/// Whether `v` holds `x`.
pub fn contains_i32(v: &Vec<i32>, x: i32) -> (r: bool)
    ensures
        r == v@.contains(x),
{
    let n = v.len();
    let mut i: usize = 0;
    while i < n
        invariant
            i <= n,
            n == v@.len(),
            forall|j: int| 0 <= j < i ==> v@[j] != x,
        decreases n - i,
    {
        if v[i] == x {
            return true;
        }
        i = i + 1;
    }
    false
}

/// Whether plan `p` carries key `k`'s grouping identity, executably.
pub fn plan_matches(p: &FetchPlan, k: &BatchKey) -> (r: bool)
    ensures
        r == plan_group_matches(*p, *k),
{
    crate::keys::vec_str_set_eq(&p.columns, &k.columns) && opt_str_eq(&p.filter, &k.filter)
}

/// The index of a representative already of `key`'s group, if any.
fn find_group(keys: &Vec<BatchKey>, reps: &Vec<usize>, key: &BatchKey) -> (r: Option<usize>)
    requires
        forall|g: int| 0 <= g < reps@.len() ==> (#[trigger] reps@[g]) < keys@.len(),
    ensures
        match r {
            Some(g) => g < reps@.len() && group_eqv(keys@[reps@[g as int] as int], *key),
            None => forall|g: int|
                0 <= g < reps@.len() ==> !group_eqv(keys@[(#[trigger] reps@[g]) as int], *key),
        },
{
    let m = reps.len();
    let mut g: usize = 0;
    while g < m
        invariant
            g <= m,
            m == reps@.len(),
            forall|gg: int| 0 <= gg < reps@.len() ==> (#[trigger] reps@[gg]) < keys@.len(),
            forall|gg: int|
                0 <= gg < g ==> !group_eqv(keys@[(#[trigger] reps@[gg]) as int], *key),
        decreases m - g,
    {
        if group_eq(&keys[reps[g]], key) {
            return Some(g);
        }
        g = g + 1;
    }
    None
}

/// Whether key `j` shares a grouping identity with some representative
/// named in `reps`.
pub open spec fn group_covered(keys: Seq<BatchKey>, reps: Seq<usize>, j: int) -> bool {
    exists|g: int| 0 <= g < reps.len() && group_eqv(keys[(#[trigger] reps[g]) as int], keys[j])
}

/// The representatives name pairwise distinct groups of `keys`.
pub open spec fn reps_distinct(keys: Seq<BatchKey>, reps: Seq<usize>) -> bool {
    forall|g1: int, g2: int|
        0 <= g1 < g2 < reps.len() ==> !group_eqv(
            keys[(#[trigger] reps[g1]) as int],
            keys[(#[trigger] reps[g2]) as int],
        )
}

/// Every representative index lies below `bound`.
pub open spec fn reps_below(reps: Seq<usize>, bound: int) -> bool {
    forall|g: int| 0 <= g < reps.len() ==> (#[trigger] reps[g]) < bound
}

/// Adding key `k` as a fresh representative keeps keys `0..=k` covered.
proof fn lemma_cover_push(keys: Seq<BatchKey>, reps: Seq<usize>, k: int)
    requires
        keys.len() <= usize::MAX,
        0 <= k < keys.len(),
        forall|j: int| 0 <= j < k ==> #[trigger] group_covered(keys, reps, j),
    ensures
        forall|j: int|
            0 <= j < k + 1 ==> #[trigger] group_covered(keys, reps.push(k as usize), j),
{
    let reps2 = reps.push(k as usize);
    assert forall|j: int| 0 <= j < k + 1 implies #[trigger] group_covered(keys, reps2, j) by {
        if j < k {
            assert(group_covered(keys, reps, j));
            let g0 = choose|g: int|
                0 <= g < reps.len() && group_eqv(keys[(#[trigger] reps[g]) as int], keys[j]);
            assert(reps2[g0] == reps[g0]);
            assert(group_eqv(keys[(reps2[g0]) as int], keys[j]));
        } else {
            assert(reps2[reps2.len() - 1] == k as usize);
            assert(group_eqv(keys[(reps2[reps2.len() - 1]) as int], keys[j]));
        }
    }
}

/// Every member found so far belongs to the representative's group.
pub open spec fn members_upto_ok(
    keys: Seq<BatchKey>,
    rep: int,
    members: Seq<usize>,
    j: int,
) -> bool {
    forall|mi: int|
        0 <= mi < members.len() ==> (#[trigger] members[mi]) < j && group_eqv(
            keys[members[mi] as int],
            keys[rep],
        )
}

/// Every key below `j` of the representative's group is a member already.
pub open spec fn members_upto_complete(
    keys: Seq<BatchKey>,
    rep: int,
    members: Seq<usize>,
    j: int,
) -> bool {
    forall|kk: int|
        0 <= kk < j && group_eqv(#[trigger] keys[kk], keys[rep]) ==> members.contains(kk as usize)
}

/// One gathering step: key `j` is of the group; push it as a member and,
/// when its entity is new, gather the entity as well.
proof fn lemma_gather_step(
    keys: Seq<BatchKey>,
    rep: int,
    members: Seq<usize>,
    ids: Seq<i32>,
    j: int,
)
    requires
        keys.len() <= usize::MAX,
        0 <= rep < keys.len(),
        0 <= j < keys.len(),
        group_eqv(keys[j], keys[rep]),
        members_upto_ok(keys, rep, members, j),
        members_upto_complete(keys, rep, members, j),
        members_ascending(members),
        no_dup_i32(ids),
        entities_covered(keys, members, ids),
        entities_complete(keys, members, ids),
    ensures
        members_upto_ok(keys, rep, members.push(j as usize), j + 1),
        members_upto_complete(keys, rep, members.push(j as usize), j + 1),
        members_ascending(members.push(j as usize)),
        !ids.contains(keys[j].entity_id) ==> no_dup_i32(ids.push(keys[j].entity_id)),
        !ids.contains(keys[j].entity_id) ==> entities_covered(
            keys,
            members.push(j as usize),
            ids.push(keys[j].entity_id),
        ),
        !ids.contains(keys[j].entity_id) ==> entities_complete(
            keys,
            members.push(j as usize),
            ids.push(keys[j].entity_id),
        ),
        ids.contains(keys[j].entity_id) ==> entities_covered(keys, members.push(j as usize), ids),
        ids.contains(keys[j].entity_id) ==> entities_complete(keys, members.push(j as usize), ids),
{
    let members2 = members.push(j as usize);
    let eid = keys[j].entity_id;
    let ids2 = ids.push(eid);

    assert forall|mi: int| 0 <= mi < members2.len() implies (#[trigger] members2[mi]) < j + 1
        && group_eqv(keys[members2[mi] as int], keys[rep]) by {
        if mi < members.len() {
            assert(members2[mi] == members[mi]);
        } else {
            assert(members2[mi] == j as usize);
        }
    }

    assert forall|a: int, b: int| 0 <= a < b < members2.len() implies members2[a]
        < members2[b] by {
        assert(members2[a] == members[a]);
        if b < members.len() {
            assert(members2[b] == members[b]);
        } else {
            assert(members2[b] == j as usize);
            assert(members[a] < j);
        }
    }

    assert forall|kk: int|
        0 <= kk < j + 1 && group_eqv(#[trigger] keys[kk], keys[rep]) implies members2.contains(
        kk as usize,
    ) by {
        if kk < j {
            assert(members.contains(kk as usize));
            let mi = choose|mi: int| 0 <= mi < members.len() && members[mi] == kk as usize;
            assert(members2[mi] == kk as usize);
        } else {
            assert(members2[members2.len() - 1] == kk as usize);
        }
    }

    if !ids.contains(eid) {
        assert forall|a: int, b: int| 0 <= a < b < ids2.len() implies ids2[a] != ids2[b] by {
            if b == ids2.len() - 1 {
                assert(ids2[b] == eid);
                assert(ids2[a] == ids[a]);
                if ids[a] == eid {
                    assert(ids.contains(eid));
                }
            }
        }
        assert forall|id: i32| #[trigger] ids2.contains(id) implies exists|mi: int|
            0 <= mi < members2.len() && keys[(#[trigger] members2[mi]) as int].entity_id
                == id by {
            let w = choose|w: int| 0 <= w < ids2.len() && ids2[w] == id;
            if w < ids.len() {
                assert(ids[w] == id);
                assert(ids.contains(id));
                let mi = choose|mi: int|
                    0 <= mi < members.len() && keys[(#[trigger] members[mi]) as int].entity_id
                        == id;
                assert(members2[mi] == members[mi]);
                assert(keys[(members2[mi]) as int].entity_id == id);
            } else {
                assert(ids2[w] == eid);
                assert(members2[members2.len() - 1] == j as usize);
                assert(keys[(members2[members2.len() - 1]) as int].entity_id == id);
            }
        }
        assert forall|mi: int| 0 <= mi < members2.len() implies ids2.contains(
            keys[(#[trigger] members2[mi]) as int].entity_id,
        ) by {
            if mi < members.len() {
                assert(members2[mi] == members[mi]);
                let e = keys[members[mi] as int].entity_id;
                assert(ids.contains(e));
                let w = choose|w: int| 0 <= w < ids.len() && ids[w] == e;
                assert(ids2[w] == e);
            } else {
                assert(members2[mi] == j as usize);
                assert(ids2[ids2.len() - 1] == eid);
            }
        }
    } else {
        assert forall|id: i32| #[trigger] ids.contains(id) implies exists|mi: int|
            0 <= mi < members2.len() && keys[(#[trigger] members2[mi]) as int].entity_id
                == id by {
            let mi = choose|mi: int|
                0 <= mi < members.len() && keys[(#[trigger] members[mi]) as int].entity_id == id;
            assert(members2[mi] == members[mi]);
            assert(keys[(members2[mi]) as int].entity_id == id);
        }
        assert forall|mi: int| 0 <= mi < members2.len() implies ids.contains(
            keys[(#[trigger] members2[mi]) as int].entity_id,
        ) by {
            if mi < members.len() {
                assert(members2[mi] == members[mi]);
            } else {
                assert(members2[mi] == j as usize);
            }
        }
    }
}

/// Gathered parts make a well-formed plan for the representative's group.
proof fn lemma_plan_from_parts(keys: Seq<BatchKey>, rep: int, plan: FetchPlan)
    requires
        keys.len() <= usize::MAX,
        0 <= rep < keys.len(),
        plan_group_matches(plan, keys[rep]),
        plan.columns.deep_view() == keys[rep].columns.deep_view(),
        members_upto_ok(keys, rep, plan.members@, keys.len() as int),
        members_upto_complete(keys, rep, plan.members@, keys.len() as int),
        no_dup_i32(plan.entity_ids@),
        entities_covered(keys, plan.members@, plan.entity_ids@),
        entities_complete(keys, plan.members@, plan.entity_ids@),
    ensures
        plan_members_ok(keys, plan),
        plan_members_complete(keys, plan),
        plan_entities_ok(keys, plan),
        plan.members@.len() > 0,
        plan_columns_from_member(keys, plan),
{
    assert(group_eqv(keys[rep], keys[rep]));
    assert(plan.members@.contains(rep as usize));
    let mi = choose|mi: int| 0 <= mi < plan.members@.len() && plan.members@[mi] == rep as usize;
    assert(plan.columns.deep_view() == keys[(plan.members@[mi]) as int].columns.deep_view());
    assert forall|m: int| 0 <= m < plan.members@.len() implies (#[trigger] plan.members@[m])
        < keys.len() && plan_group_matches(plan, keys[plan.members@[m] as int]) by {
        assert(group_eqv(keys[plan.members@[m] as int], keys[rep]));
    }
    assert forall|k: int|
        0 <= k < keys.len() && plan_group_matches(plan, #[trigger] keys[k]) implies plan
        .members@.contains(k as usize) by {
        assert(group_eqv(keys[k], keys[rep]));
    }
}

/// A plan per distinct representative, each well formed, is a well-formed
/// dispatch plan for all the keys.
proof fn lemma_wf_from_reps(keys: Seq<BatchKey>, reps: Seq<usize>, plans: Seq<FetchPlan>)
    requires
        keys.len() <= usize::MAX,
        plans.len() == reps.len(),
        reps_below(reps, keys.len() as int),
        reps_distinct(keys, reps),
        forall|j: int| 0 <= j < keys.len() ==> #[trigger] group_covered(keys, reps, j),
        forall|p: int|
            0 <= p < plans.len() ==> plan_group_matches(#[trigger] plans[p], keys[reps[p] as int]),
        forall|p: int|
            0 <= p < plans.len() ==> plan_members_ok(keys, #[trigger] plans[p])
                && plan_members_complete(keys, plans[p]) && plan_entities_ok(keys, plans[p])
                && members_ascending(plans[p].members@) && plans[p].members@.len() > 0
                && plan_columns_from_member(keys, plans[p]),
    ensures
        wf_plan(keys, plans),
{
    assert forall|p1: int, p2: int| 0 <= p1 < p2 < plans.len() implies !plans_group_eqv(
        #[trigger] plans[p1],
        #[trigger] plans[p2],
    ) by {
        assert(plan_group_matches(plans[p1], keys[reps[p1] as int]));
        assert(plan_group_matches(plans[p2], keys[reps[p2] as int]));
        assert(!group_eqv(keys[(reps[p1]) as int], keys[(reps[p2]) as int]));
    }
    assert forall|kk: int| 0 <= kk < keys.len() implies #[trigger] key_covered(
        keys,
        plans,
        kk,
    ) by {
        assert(group_covered(keys, reps, kk));
        let g = choose|g: int|
            0 <= g < reps.len() && group_eqv(keys[(#[trigger] reps[g]) as int], keys[kk]);
        assert(plan_group_matches(plans[g], keys[reps[g] as int]));
        assert(plan_group_matches(plans[g], keys[kk]));
    }
}

impl BatchLoader {
    /// Partitions the pending keys by (column set, filter): exactly one
    /// fetch plan per distinct group, each carrying the distinct entity
    /// references of the keys it serves and the handles of those keys.
    pub fn plan(&self) -> (plans: Vec<FetchPlan>)
        ensures
            wf_plan(self.keys@, plans@),
    {
        let n = self.keys.len();

        // One representative key index per distinct group, in first-seen order.
        let mut reps: Vec<usize> = Vec::new();
        let mut k: usize = 0;
        while k < n
            invariant
                k <= n,
                n == self.keys@.len(),
                reps_below(reps@, k as int),
                reps_distinct(self.keys@, reps@),
                forall|j: int| 0 <= j < k ==> #[trigger] group_covered(self.keys@, reps@, j),
            decreases n - k,
        {
            match find_group(&self.keys, &reps, &self.keys[k]) {
                Some(g) => {
                    proof {
                        assert(group_eqv(
                            self.keys@[(reps@[g as int]) as int],
                            self.keys@[k as int],
                        ));
                        assert(group_covered(self.keys@, reps@, k as int));
                        assert forall|j: int|
                            0 <= j < k + 1 implies #[trigger] group_covered(
                            self.keys@,
                            reps@,
                            j,
                        ) by {}
                    }
                },
                None => {
                    proof {
                        lemma_cover_push(self.keys@, reps@, k as int);
                    }
                    let ghost old_reps = reps@;
                    reps.push(k);
                    proof {
                        assert(reps@ == old_reps.push(k as usize));
                        assert forall|j: int|
                            0 <= j < k + 1 implies #[trigger] group_covered(
                            self.keys@,
                            reps@,
                            j,
                        ) by {
                            assert(group_covered(self.keys@, old_reps.push(k as usize), j));
                        }
                        assert forall|g1: int, g2: int|
                            0 <= g1 < g2 < reps@.len() implies !group_eqv(
                            self.keys@[(#[trigger] reps@[g1]) as int],
                            self.keys@[(#[trigger] reps@[g2]) as int],
                        ) by {
                            assert(reps@[g1] == old_reps[g1]);
                            if g2 < old_reps.len() {
                                assert(reps@[g2] == old_reps[g2]);
                            } else {
                                assert(reps@[g2] == k as usize);
                                assert(!group_eqv(
                                    self.keys@[(old_reps[g1]) as int],
                                    self.keys@[k as int],
                                ));
                            }
                        }
                    }
                },
            }
            k = k + 1;
        }

        // One plan per representative, gathering its members and entities.
        let mut plans: Vec<FetchPlan> = Vec::new();
        let m = reps.len();
        let mut gi: usize = 0;
        while gi < m
            invariant
                gi <= m,
                m == reps@.len(),
                n == self.keys@.len(),
                reps_below(reps@, n as int),
                reps_distinct(self.keys@, reps@),
                forall|j: int| 0 <= j < n ==> #[trigger] group_covered(self.keys@, reps@, j),
                plans@.len() == gi,
                forall|p: int|
                    0 <= p < gi ==> plan_group_matches(
                        #[trigger] plans@[p],
                        self.keys@[reps@[p] as int],
                    ),
                forall|p: int|
                    0 <= p < gi ==> plan_members_ok(self.keys@, #[trigger] plans@[p])
                        && plan_members_complete(self.keys@, plans@[p]) && plan_entities_ok(
                        self.keys@,
                        plans@[p],
                    ) && members_ascending(plans@[p].members@) && plans@[p].members@.len() > 0
                        && plan_columns_from_member(self.keys@, plans@[p]),
            decreases m - gi,
        {
            let rep = reps[gi];
            let columns = self.keys[rep].columns.clone();
            let filter = self.keys[rep].filter.clone();
            proof {
                assert(columns.deep_view() =~= self.keys@[rep as int].columns.deep_view());
            }

            let mut members: Vec<usize> = Vec::new();
            let mut entity_ids: Vec<i32> = Vec::new();
            let mut j: usize = 0;
            while j < n
                invariant
                    j <= n,
                    n == self.keys@.len(),
                    rep < n,
                    members_upto_ok(self.keys@, rep as int, members@, j as int),
                    members_upto_complete(self.keys@, rep as int, members@, j as int),
                    members_ascending(members@),
                    no_dup_i32(entity_ids@),
                    entities_covered(self.keys@, members@, entity_ids@),
                    entities_complete(self.keys@, members@, entity_ids@),
                decreases n - j,
            {
                if group_eq(&self.keys[j], &self.keys[rep]) {
                    proof {
                        lemma_gather_step(
                            self.keys@,
                            rep as int,
                            members@,
                            entity_ids@,
                            j as int,
                        );
                    }
                    let eid = self.keys[j].entity_id;
                    members.push(j);
                    if !contains_i32(&entity_ids, eid) {
                        entity_ids.push(eid);
                    }
                }
                j = j + 1;
            }

            let plan = FetchPlan { columns, filter, entity_ids, members };
            proof {
                assert(plan_group_matches(plan, self.keys@[rep as int]));
                lemma_plan_from_parts(self.keys@, rep as int, plan);
            }
            plans.push(plan);
            gi = gi + 1;
        }

        proof {
            lemma_wf_from_reps(self.keys@, reps@, plans@);
        }
        plans
    }
}

/// The plan of `key`'s group, under a plan set that covers `key`.
fn find_plan(plans: &Vec<FetchPlan>, key: &BatchKey) -> (r: usize)
    requires
        exists|p: int| 0 <= p < plans@.len() && plan_group_matches(#[trigger] plans@[p], *key),
    ensures
        r < plans@.len(),
        plan_group_matches(plans@[r as int], *key),
{
    let np = plans.len();
    let mut p: usize = 0;
    while p < np
        invariant
            p <= np,
            np == plans@.len(),
            exists|q: int| 0 <= q < plans@.len() && plan_group_matches(#[trigger] plans@[q], *key),
            forall|q: int| 0 <= q < p ==> !plan_group_matches(#[trigger] plans@[q], *key),
        decreases np - p,
    {
        if plan_matches(&plans[p], key) {
            return p;
        }
        p = p + 1;
    }
    proof {
        let q = choose|q: int|
            0 <= q < plans@.len() && plan_group_matches(#[trigger] plans@[q], *key);
        assert(!plan_group_matches(plans@[q], *key));
    }
    vstd::pervasive::unreached()
}

/// How one variant key must be resolved: whichever plan carries its group
/// (there is exactly one), its outcome decides — the partition's error for
/// every key in it, or exactly the rows that belong to the key.
pub open spec fn variant_key_resolved(
    key: BatchKey,
    plans: Seq<FetchPlan>,
    outcomes: Seq<Result<Vec<VariantGQL>, FetchError>>,
    result: Result<Vec<VariantGQL>, FetchError>,
) -> bool {
    forall|p: int|
        0 <= p < plans.len() && plan_group_matches(#[trigger] plans[p], key) ==> match (
            result,
            outcomes[p],
        ) {
            (Ok(rs), Ok(rows)) => rs@ == rows@.filter(variant_pred(key)),
            (Err(e1), Err(e2)) => e1 == e2,
            _ => false,
        }
}

/// How one media key must be resolved, as for variants.
pub open spec fn media_key_resolved(
    key: BatchKey,
    plans: Seq<FetchPlan>,
    outcomes: Seq<Result<Vec<Media>, FetchError>>,
    result: Result<Vec<Media>, FetchError>,
) -> bool {
    forall|p: int|
        0 <= p < plans.len() && plan_group_matches(#[trigger] plans[p], key) ==> match (
            result,
            outcomes[p],
        ) {
            (Ok(rs), Ok(rows)) => rs@ == rows@.filter(media_pred(key)),
            (Err(e1), Err(e2)) => e1 == e2,
            _ => false,
        }
}

impl BatchLoader {
    /// Resolves every pending variant key from its partition's outcome:
    /// a failed partition fails every key in it with the same error and no
    /// other; a successful partition hands each of its keys exactly the
    /// rows that belong to it, in store order.  Partitions are independent.
    pub fn resolve_variants(
        &self,
        plans: &Vec<FetchPlan>,
        outcomes: &Vec<Result<Vec<VariantGQL>, FetchError>>,
    ) -> (results: Vec<Result<Vec<VariantGQL>, FetchError>>)
        requires
            wf_plan(self.keys@, plans@),
            outcomes@.len() == plans@.len(),
        ensures
            results@.len() == self.keys@.len(),
            forall|k: int|
                0 <= k < self.keys@.len() ==> #[trigger] variant_key_resolved(
                    self.keys@[k],
                    plans@,
                    outcomes@,
                    results@[k],
                ),
    {
        let nk = self.keys.len();
        let mut results: Vec<Result<Vec<VariantGQL>, FetchError>> = Vec::new();
        let mut k: usize = 0;
        while k < nk
            invariant
                k <= nk,
                nk == self.keys@.len(),
                wf_plan(self.keys@, plans@),
                outcomes@.len() == plans@.len(),
                results@.len() == k,
                forall|kk: int|
                    0 <= kk < k ==> #[trigger] variant_key_resolved(
                        self.keys@[kk],
                        plans@,
                        outcomes@,
                        results@[kk],
                    ),
            decreases nk - k,
        {
            let key = &self.keys[k];
            proof {
                assert(key_covered(self.keys@, plans@, k as int));
            }
            let p = find_plan(plans, key);
            match &outcomes[p] {
                Ok(rows) => {
                    let rs = variant_rows_for_key(rows, key);
                    results.push(Ok(rs));
                },
                Err(e) => {
                    results.push(Err(e.clone()));
                },
            }
            proof {
                assert forall|p2: int|
                    0 <= p2 < plans@.len() && plan_group_matches(
                        #[trigger] plans@[p2],
                        self.keys@[k as int],
                    ) implies p2 == p as int by {
                    if p2 != p as int {
                        assert(plans_group_eqv(plans@[p2], plans@[p as int]));
                    }
                }
                assert(variant_key_resolved(
                    self.keys@[k as int],
                    plans@,
                    outcomes@,
                    results@[k as int],
                ));
            }
            k = k + 1;
        }
        results
    }

    /// Resolves every pending media key, exactly as `resolve_variants`
    /// does for variant keys.
    pub fn resolve_media(
        &self,
        plans: &Vec<FetchPlan>,
        outcomes: &Vec<Result<Vec<Media>, FetchError>>,
    ) -> (results: Vec<Result<Vec<Media>, FetchError>>)
        requires
            wf_plan(self.keys@, plans@),
            outcomes@.len() == plans@.len(),
        ensures
            results@.len() == self.keys@.len(),
            forall|k: int|
                0 <= k < self.keys@.len() ==> #[trigger] media_key_resolved(
                    self.keys@[k],
                    plans@,
                    outcomes@,
                    results@[k],
                ),
    {
        let nk = self.keys.len();
        let mut results: Vec<Result<Vec<Media>, FetchError>> = Vec::new();
        let mut k: usize = 0;
        while k < nk
            invariant
                k <= nk,
                nk == self.keys@.len(),
                wf_plan(self.keys@, plans@),
                outcomes@.len() == plans@.len(),
                results@.len() == k,
                forall|kk: int|
                    0 <= kk < k ==> #[trigger] media_key_resolved(
                        self.keys@[kk],
                        plans@,
                        outcomes@,
                        results@[kk],
                    ),
            decreases nk - k,
        {
            let key = &self.keys[k];
            proof {
                assert(key_covered(self.keys@, plans@, k as int));
            }
            let p = find_plan(plans, key);
            match &outcomes[p] {
                Ok(rows) => {
                    let rs = media_rows_for_key(rows, key);
                    results.push(Ok(rs));
                },
                Err(e) => {
                    results.push(Err(e.clone()));
                },
            }
            proof {
                assert forall|p2: int|
                    0 <= p2 < plans@.len() && plan_group_matches(
                        #[trigger] plans@[p2],
                        self.keys@[k as int],
                    ) implies p2 == p as int by {
                    if p2 != p as int {
                        assert(plans_group_eqv(plans@[p2], plans@[p as int]));
                    }
                }
                assert(media_key_resolved(
                    self.keys@[k as int],
                    plans@,
                    outcomes@,
                    results@[k as int],
                ));
            }
            k = k + 1;
        }
        results
    }
}

/// An empty pass plans no fetch: with nothing pending, a well-formed
/// dispatch plan holds no plans, so no query is ever issued.
pub proof fn lemma_no_fetch_on_empty_pass(keys: Seq<BatchKey>, plans: Seq<FetchPlan>)
    requires
        wf_plan(keys, plans),
        keys.len() == 0,
    ensures
        plans.len() == 0,
{
    if plans.len() > 0 {
        assert(plan_members_ok(keys, plans[0]));
        assert(plans[0].members@.len() > 0);
        assert((plans[0].members@[0]) < keys.len());
    }
}

/// Every pending key is served by some plan.
pub proof fn lemma_every_key_served(keys: Seq<BatchKey>, plans: Seq<FetchPlan>, k: int)
    requires
        keys.len() <= usize::MAX,
        wf_plan(keys, plans),
        0 <= k < keys.len(),
    ensures
        exists|p: int| 0 <= p < plans.len() && (#[trigger] plans[p]).members@.contains(k as usize),
{
    assert(key_covered(keys, plans, k));
    let p = choose|p: int| 0 <= p < plans.len() && plan_group_matches(#[trigger] plans[p], keys[k]);
    assert(plan_members_complete(keys, plans[p]));
    assert(plans[p].members@.contains(k as usize));
}

/// Exactly one physical fetch per group: two pending keys that share a
/// grouping identity are always served by the same single plan, whose
/// entity set carries both their entity references (it is the union of its
/// members' entity references, without duplicates).
pub proof fn lemma_one_fetch_per_group(
    keys: Seq<BatchKey>,
    plans: Seq<FetchPlan>,
    k1: int,
    k2: int,
    p1: int,
    p2: int,
)
    requires
        keys.len() <= usize::MAX,
        wf_plan(keys, plans),
        0 <= k1 < keys.len(),
        0 <= k2 < keys.len(),
        group_eqv(keys[k1], keys[k2]),
        0 <= p1 < plans.len(),
        0 <= p2 < plans.len(),
        plans[p1].members@.contains(k1 as usize),
        plans[p2].members@.contains(k2 as usize),
    ensures
        p1 == p2,
        plans[p1].entity_ids@.contains(keys[k1].entity_id),
        plans[p1].entity_ids@.contains(keys[k2].entity_id),
{
    let m1 = choose|m: int|
        0 <= m < plans[p1].members@.len() && plans[p1].members@[m] == k1 as usize;
    let m2 = choose|m: int|
        0 <= m < plans[p2].members@.len() && plans[p2].members@[m] == k2 as usize;
    assert(plan_members_ok(keys, plans[p1]));
    assert(plan_members_ok(keys, plans[p2]));
    assert(plans[p1].members@[m1] == k1 as usize);
    assert(plans[p2].members@[m2] == k2 as usize);
    assert(plan_group_matches(plans[p1], keys[k1]));
    assert(plan_group_matches(plans[p2], keys[k2]));
    if p1 != p2 {
        assert(plans_group_eqv(plans[p1], plans[p2]));
    }
    assert(entities_complete(keys, plans[p1].members@, plans[p1].entity_ids@));
    assert(plans[p1].entity_ids@.contains(keys[(plans[p1].members@[m1]) as int].entity_id));
    assert(plans[p1].entity_ids@.contains(keys[(plans[p1].members@[m2]) as int].entity_id));
}

/// An entity with no matching rows resolves to the empty sequence — a
/// normal outcome, not an error: when a key's partition fetch succeeded
/// but returned no row of the key's entity, the key resolves to `Ok` of
/// the empty sequence, never to a failure and never to a leaked row.
pub proof fn lemma_missing_entity_resolves_empty(
    key: BatchKey,
    plans: Seq<FetchPlan>,
    outcomes: Seq<Result<Vec<VariantGQL>, FetchError>>,
    result: Result<Vec<VariantGQL>, FetchError>,
    p: int,
)
    requires
        variant_key_resolved(key, plans, outcomes, result),
        0 <= p < plans.len(),
        plan_group_matches(plans[p], key),
        outcomes[p] matches Ok(rows) && (forall|i: int|
            0 <= i < rows@.len() ==> (#[trigger] rows@[i]).product_id != key.entity_id),
    ensures
        result matches Ok(rs) && rs@ == Seq::<VariantGQL>::empty(),
{
    assert(plan_group_matches(plans[p], key));
    match (result, outcomes[p]) {
        (Ok(rs), Ok(rows)) => {
            crate::rows::lemma_demux_missing_entity_empty(rows@, key);
            assert(rs@ == rows@.filter(variant_pred(key)));
        },
        _ => {
            assert(false);
        },
    }
}

/// Demultiplexing correctness at the resolution boundary: when a key's
/// partition fetch succeeded, the key resolves to rows that all carry the
/// key's entity reference and satisfy its narrowing filter.
pub proof fn lemma_resolution_sound(
    key: BatchKey,
    plans: Seq<FetchPlan>,
    outcomes: Seq<Result<Vec<VariantGQL>, FetchError>>,
    result: Result<Vec<VariantGQL>, FetchError>,
    p: int,
)
    requires
        variant_key_resolved(key, plans, outcomes, result),
        0 <= p < plans.len(),
        plan_group_matches(plans[p], key),
        outcomes[p] is Ok,
    ensures
        result matches Ok(rs) && forall|i: int|
            0 <= i < rs@.len() ==> crate::rows::variant_matches(#[trigger] rs@[i], key),
{
    assert(plan_group_matches(plans[p], key));
    match (result, outcomes[p]) {
        (Ok(rs), Ok(rows)) => {
            crate::rows::lemma_demux_sound(rows@, key);
            assert(rs@ == rows@.filter(variant_pred(key)));
        },
        _ => {
            assert(false);
        },
    }
}

/// Keys with differing narrowing filters are never merged: their plans
/// differ even when their column sets match, so two separate fetches occur.
pub proof fn lemma_filters_never_merged(
    keys: Seq<BatchKey>,
    plans: Seq<FetchPlan>,
    k1: int,
    k2: int,
    p1: int,
    p2: int,
)
    requires
        keys.len() <= usize::MAX,
        wf_plan(keys, plans),
        0 <= k1 < keys.len(),
        0 <= k2 < keys.len(),
        opt_view(keys[k1].filter) != opt_view(keys[k2].filter),
        0 <= p1 < plans.len(),
        0 <= p2 < plans.len(),
        plans[p1].members@.contains(k1 as usize),
        plans[p2].members@.contains(k2 as usize),
    ensures
        p1 != p2,
{
    let m1 = choose|m: int|
        0 <= m < plans[p1].members@.len() && plans[p1].members@[m] == k1 as usize;
    let m2 = choose|m: int|
        0 <= m < plans[p2].members@.len() && plans[p2].members@[m] == k2 as usize;
    assert(plan_members_ok(keys, plans[p1]));
    assert(plan_members_ok(keys, plans[p2]));
    assert(plans[p1].members@[m1] == k1 as usize);
    assert(plans[p2].members@[m2] == k2 as usize);
    assert(plan_group_matches(plans[p1], keys[k1]));
    assert(plan_group_matches(plans[p2], keys[k2]));
}

} // verus!
