//! What holds of every plan: which snapshots get a backup, with which parent,
//! and that the order of the pools does not matter.

use crate::clock::is_expired;
use crate::clock::Timestamp;
use crate::compute_backups::action_for;
use crate::compute_backups::full_backup;
use crate::compute_backups::incremental_backup;
use crate::compute_backups::is_full;
use crate::compute_backups::is_incremental;
use crate::compute_backups::last_uploadable;
use crate::compute_backups::plan;
use crate::compute_backups::pool_plan;
use crate::compute_backups::BackupView;
use crate::config::ConfigView;
use crate::zfs_utils::belongs_to;
use crate::zfs_utils::inventory_of;
use crate::zfs_utils::names_distinct;
use crate::zfs_utils::snapshots_of_pool;
use crate::zfs_utils::with_pool;
use crate::zfs_utils::PoolView;
use crate::zfs_utils::SnapshotView;
use vstd::prelude::*;
use vstd::seq_lib::lemma_multiset_commutative;
use vstd::seq_lib::to_multiset_build;
use vstd::seq_lib::to_multiset_contains;
use vstd::seq_lib::to_multiset_len;
use vstd::seq_lib::to_multiset_remove;

verus! {

/// Whether no two of `snapshots` have the same name.
pub open spec fn snapshot_names_distinct(snapshots: Seq<SnapshotView>) -> bool {
    forall|i: int, j: int|
        0 <= i < j < snapshots.len() ==> (#[trigger] snapshots[i]).name != (
        #[trigger] snapshots[j]).name
}

/// How many of `actions` are backups of the snapshot `name`.
pub open spec fn backups_of(actions: Seq<BackupView>, name: Seq<char>) -> nat
    decreases actions.len(),
{
    if actions.len() == 0 {
        0
    } else {
        backups_of(actions.drop_last(), name) + if actions.last().snapshot.name == name {
            1nat
        } else {
            0nat
        }
    }
}

/// The plan of a pool grows with its snapshots: what is planned for the
/// first `k` of them stays at the head of the plan for all of them.
pub proof fn lemma_pool_plan_grows(
    config: ConfigView,
    snapshots: Seq<SnapshotView>,
    now: Timestamp,
    k: int,
)
    requires
        0 <= k <= snapshots.len(),
    ensures
        pool_plan(config, snapshots.take(k), now).is_prefix_of(pool_plan(config, snapshots, now)),
    decreases snapshots.len() - k,
{
    if k == snapshots.len() {
        assert(snapshots.take(k) =~= snapshots);
    } else {
        let before = snapshots.drop_last();
        lemma_pool_plan_grows(config, before, now, k);
        assert(before.take(k) =~= snapshots.take(k));
        let head = pool_plan(config, snapshots.take(k), now);
        let mid = pool_plan(config, before, now);
        let all = pool_plan(config, snapshots, now);
        assert(mid.is_prefix_of(all)) by {
            assert(all.subrange(0, mid.len() as int) =~= mid);
        }
        assert(all.subrange(0, head.len() as int) =~= mid.subrange(0, head.len() as int));
    }
}

/// What is planned for the snapshot at `i` stands in the plan of its pool.
pub proof fn lemma_pool_plan_holds(
    config: ConfigView,
    snapshots: Seq<SnapshotView>,
    now: Timestamp,
    i: int,
)
    requires
        0 <= i < snapshots.len(),
        action_for(config, last_uploadable(config, snapshots.take(i)), snapshots[i], now) is Some,
    ensures
        pool_plan(config, snapshots, now).contains(
            action_for(config, last_uploadable(config, snapshots.take(i)), snapshots[i], now)->0,
        ),
{
    let upto = snapshots.take(i + 1);
    assert(upto.drop_last() =~= snapshots.take(i));
    assert(upto.last() == snapshots[i]);
    let action = action_for(config, last_uploadable(config, snapshots.take(i)), snapshots[i], now)->0;
    let head = pool_plan(config, upto, now);
    assert(head.last() == action);
    lemma_pool_plan_grows(config, snapshots, now, i + 1);
    let all = pool_plan(config, snapshots, now);
    assert(all.subrange(0, head.len() as int) == head);
    assert(all[head.len() - 1] == head[head.len() - 1]);
}

/// The plan of a covered pool stands in the plan of the inventory.
pub proof fn lemma_plan_holds_pool(
    config: ConfigView,
    pools: Seq<PoolView>,
    now: Timestamp,
    p: int,
    action: BackupView,
)
    requires
        0 <= p < pools.len(),
        config.covers(pools[p].name),
        pool_plan(config, pools[p].snapshots, now).contains(action),
    ensures
        plan(config, pools, now).contains(action),
    decreases pools.len(),
{
    let before = plan(config, pools.drop_last(), now);
    let own = pool_plan(config, pools[p].snapshots, now);
    let all = plan(config, pools, now);
    if p == pools.len() - 1 {
        let k = choose|k: int| 0 <= k < own.len() && own[k] == action;
        assert(all[before.len() + k] == action);
    } else {
        lemma_plan_holds_pool(config, pools.drop_last(), now, p, action);
        let k = choose|k: int| 0 <= k < before.len() && before[k] == action;
        assert(all[k] == action);
    }
}

/// Every snapshot of a covered pool that the policy sends in full, and that
/// is not too old, has its full backup in the plan: a backup without parent.
/// A snapshot whose name matches both patterns counts as an increment, not
/// as a full snapshot. Where no two snapshots of the inventory have the same
/// name, the plan holds this one backup of the snapshot and no other.
pub proof fn law_full_snapshots_planned(
    config: ConfigView,
    pools: Seq<PoolView>,
    now: Timestamp,
    p: int,
    i: int,
)
    requires
        0 <= p < pools.len(),
        config.covers(pools[p].name),
        0 <= i < pools[p].snapshots.len(),
        is_full(config, pools[p].snapshots[i]),
        !is_expired(pools[p].snapshots[i].creation, config.full.expire_in_days, now),
    ensures
        plan(config, pools, now).contains(full_backup(config, pools[p].snapshots[i])),
        full_backup(config, pools[p].snapshots[i]).parent is None,
        inventory_names_distinct(pools) ==> backups_of(
            plan(config, pools, now),
            pools[p].snapshots[i].name,
        ) == 1,
{
    let snapshots = pools[p].snapshots;
    if inventory_names_distinct(pools) {
        law_one_backup_in_plan(config, pools, now, p, i);
    }
    lemma_pool_plan_holds(config, snapshots, now, i);
    lemma_plan_holds_pool(config, pools, now, p, full_backup(config, snapshots[i]));
}

/// Every backup in the plan of a pool is the backup of one of its snapshots.
pub proof fn lemma_backups_are_of_snapshots(
    config: ConfigView,
    snapshots: Seq<SnapshotView>,
    now: Timestamp,
    name: Seq<char>,
)
    requires
        forall|j: int| 0 <= j < snapshots.len() ==> (#[trigger] snapshots[j]).name != name,
    ensures
        backups_of(pool_plan(config, snapshots, now), name) == 0,
    decreases snapshots.len(),
{
    if snapshots.len() > 0 {
        let before = snapshots.drop_last();
        assert forall|j: int| 0 <= j < before.len() implies (#[trigger] before[j]).name != name by {
            assert(before[j] == snapshots[j]);
        }
        lemma_backups_are_of_snapshots(config, before, now, name);
        let mid = pool_plan(config, before, now);
        let all = pool_plan(config, snapshots, now);
        assert(snapshots[snapshots.len() - 1].name != name);
        if action_for(config, last_uploadable(config, before), snapshots.last(), now) is Some {
            assert(all.drop_last() =~= mid);
        }
    }
}

/// Where the names of the snapshots of a pool differ, the plan of the pool
/// holds one backup of a snapshot for which one is planned, and none of any
/// other snapshot.
pub proof fn lemma_one_backup_each(
    config: ConfigView,
    snapshots: Seq<SnapshotView>,
    now: Timestamp,
    i: int,
)
    requires
        snapshot_names_distinct(snapshots),
        0 <= i < snapshots.len(),
    ensures
        backups_of(pool_plan(config, snapshots, now), snapshots[i].name) == if action_for(
            config,
            last_uploadable(config, snapshots.take(i)),
            snapshots[i],
            now,
        ) is Some {
            1nat
        } else {
            0nat
        },
    decreases snapshots.len(),
{
    let before = snapshots.drop_last();
    let mid = pool_plan(config, before, now);
    let all = pool_plan(config, snapshots, now);
    let last = snapshots.len() - 1;
    let planned = action_for(config, last_uploadable(config, before), snapshots.last(), now);
    if planned is Some {
        assert(all.drop_last() =~= mid);
    }
    if i == last {
        assert(snapshots.take(i) =~= before);
        assert forall|j: int| 0 <= j < before.len() implies (#[trigger] before[j]).name
            != snapshots[i].name by {
            assert(before[j] == snapshots[j]);
        }
        lemma_backups_are_of_snapshots(config, before, now, snapshots[i].name);
    } else {
        assert forall|a: int, b: int| 0 <= a < b < before.len() implies (#[trigger] before[a]).name
            != (#[trigger] before[b]).name by {
            assert(before[a] == snapshots[a]);
            assert(before[b] == snapshots[b]);
        }
        lemma_one_backup_each(config, before, now, i);
        assert(before.take(i) =~= snapshots.take(i));
        assert(before[i] == snapshots[i]);
        assert(snapshots[i].name != snapshots[last].name);
    }
}

/// The last uploadable snapshot of a run of snapshots is one of them.
pub proof fn law_parent_comes_earlier(config: ConfigView, snapshots: Seq<SnapshotView>)
    requires
        last_uploadable(config, snapshots) is Some,
    ensures
        exists|j: int|
            0 <= j < snapshots.len() && #[trigger] snapshots[j] == last_uploadable(
                config,
                snapshots,
            )->0,
    decreases snapshots.len(),
{
    let before = snapshots.drop_last();
    let s = snapshots.last();
    if is_incremental(config, s) || is_full(config, s) {
        assert(snapshots[snapshots.len() - 1] == last_uploadable(config, snapshots)->0);
    } else {
        law_parent_comes_earlier(config, before);
        let j = choose|j: int|
            0 <= j < before.len() && #[trigger] before[j] == last_uploadable(config, before)->0;
        assert(snapshots[j] == last_uploadable(config, snapshots)->0);
    }
}

/// There is an uploadable snapshot among `snapshots` exactly where one of
/// them is sent in full: a snapshot for an increment is uploadable only
/// after a full one.
pub proof fn law_uploadable_needs_full(config: ConfigView, snapshots: Seq<SnapshotView>)
    ensures
        last_uploadable(config, snapshots) is Some <==> exists|j: int|
            0 <= j < snapshots.len() && is_full(config, #[trigger] snapshots[j]),
    decreases snapshots.len(),
{
    if snapshots.len() > 0 {
        let before = snapshots.drop_last();
        law_uploadable_needs_full(config, before);
        let last = snapshots.len() - 1;
        if exists|j: int| 0 <= j < before.len() && is_full(config, #[trigger] before[j]) {
            let j = choose|j: int| 0 <= j < before.len() && is_full(config, #[trigger] before[j]);
            assert(is_full(config, snapshots[j]));
        }
        if exists|j: int| 0 <= j < snapshots.len() && is_full(config, #[trigger] snapshots[j]) {
            let j = choose|j: int|
                0 <= j < snapshots.len() && is_full(config, #[trigger] snapshots[j]);
            if j < last {
                assert(is_full(config, before[j]));
            }
        }
        if is_full(config, snapshots.last()) {
            assert(is_full(config, snapshots[last]));
        }
    }
}

/// Whether the policy has a use for the snapshot `s`: one of its two
/// snapshot patterns matches the name.
pub open spec fn is_matched(config: ConfigView, s: SnapshotView) -> bool {
    config.incremental.matches(s.name) || config.full.matches(s.name)
}

/// Whether the snapshot at `j` is the nearest before the place `i` that the
/// policy has a use for: a pattern matches it, and none matches a snapshot
/// between the two.
pub open spec fn is_nearest_match(
    config: ConfigView,
    snapshots: Seq<SnapshotView>,
    j: int,
    i: int,
) -> bool {
    &&& 0 <= j < i <= snapshots.len()
    &&& is_matched(config, snapshots[j])
    &&& forall|k: int| j < k < i ==> !is_matched(config, #[trigger] snapshots[k])
}

/// Where there is an uploadable snapshot before the place `i`, it is the
/// nearest snapshot before `i` that one of the two patterns matches, whatever
/// its age. A snapshot that neither pattern matches is never a parent.
pub proof fn law_parent_is_nearest_match(config: ConfigView, snapshots: Seq<SnapshotView>, i: int)
    requires
        0 <= i <= snapshots.len(),
        last_uploadable(config, snapshots.take(i)) is Some,
    ensures
        exists|j: int| #[trigger]
            is_nearest_match(config, snapshots, j, i) && last_uploadable(
                config,
                snapshots.take(i),
            ) == Some(snapshots[j]),
    decreases i,
{
    let upto = snapshots.take(i);
    assert(i > 0);
    let s = snapshots[i - 1];
    assert(upto.last() == s);
    assert(upto.drop_last() =~= snapshots.take(i - 1));
    if is_incremental(config, s) || is_full(config, s) {
        assert(is_nearest_match(config, snapshots, i - 1, i));
    } else {
        law_parent_is_nearest_match(config, snapshots, i - 1);
        let j = choose|j: int| #[trigger]
            is_nearest_match(config, snapshots, j, i - 1) && last_uploadable(
                config,
                snapshots.take(i - 1),
            ) == Some(snapshots[j]);
        assert(is_nearest_match(config, snapshots, j, i));
    }
}

/// Each backup in the plan of a pool is the backup planned for one of the
/// pool's snapshots.
pub proof fn lemma_planned_has_place(
    config: ConfigView,
    snapshots: Seq<SnapshotView>,
    now: Timestamp,
    action: BackupView,
)
    requires
        pool_plan(config, snapshots, now).contains(action),
    ensures
        exists|i: int|
            0 <= i < snapshots.len() && #[trigger] action_for(
                config,
                last_uploadable(config, snapshots.take(i)),
                snapshots[i],
                now,
            ) == Some(action),
    decreases snapshots.len(),
{
    let all = pool_plan(config, snapshots, now);
    let at = choose|k: int| 0 <= k < all.len() && all[k] == action;
    assert(snapshots.len() > 0);
    let before = snapshots.drop_last();
    let last = snapshots.len() - 1;
    let mid = pool_plan(config, before, now);
    let planned = action_for(config, last_uploadable(config, before), snapshots.last(), now);
    assert(snapshots.take(last) =~= before);
    if planned is Some && at == mid.len() {
        assert(action_for(config, last_uploadable(config, snapshots.take(last)), snapshots[last], now)
            == Some(action));
    } else {
        assert(mid[at] == action);
        lemma_planned_has_place(config, before, now, action);
        let i = choose|i: int|
            0 <= i < before.len() && #[trigger] action_for(
                config,
                last_uploadable(config, before.take(i)),
                before[i],
                now,
            ) == Some(action);
        assert(before.take(i) =~= snapshots.take(i));
        assert(before[i] == snapshots[i]);
        assert(action_for(config, last_uploadable(config, snapshots.take(i)), snapshots[i], now)
            == Some(action));
    }
}

/// Each backup in the plan is in the plan of a pool that the policy covers.
pub proof fn lemma_planned_has_pool(
    config: ConfigView,
    pools: Seq<PoolView>,
    now: Timestamp,
    action: BackupView,
)
    requires
        plan(config, pools, now).contains(action),
    ensures
        exists|p: int|
            0 <= p < pools.len() && config.covers((#[trigger] pools[p]).name) && pool_plan(
                config,
                pools[p].snapshots,
                now,
            ).contains(action),
    decreases pools.len(),
{
    let all = plan(config, pools, now);
    let at = choose|k: int| 0 <= k < all.len() && all[k] == action;
    assert(pools.len() > 0);
    let rest = pools.drop_last();
    let before = plan(config, rest, now);
    if at < before.len() {
        assert(before[at] == action);
        lemma_planned_has_pool(config, rest, now, action);
        let p = choose|p: int|
            0 <= p < rest.len() && config.covers((#[trigger] rest[p]).name) && pool_plan(
                config,
                rest[p].snapshots,
                now,
            ).contains(action);
        assert(pools[p] == rest[p]);
    } else {
        let own = pool_plan(config, pools.last().snapshots, now);
        assert(config.covers(pools.last().name));
        assert(own[at - before.len()] == action);
        assert(pools[pools.len() - 1] == pools.last());
    }
}

/// Whether `action` is the increment planned for the snapshot at `i` of the
/// pool at `p`, on the snapshot at `j` of that pool, which is the nearest
/// before it that one of the two patterns matches.
pub open spec fn is_increment_on_nearest(
    config: ConfigView,
    pools: Seq<PoolView>,
    action: BackupView,
    p: int,
    i: int,
    j: int,
) -> bool {
    &&& 0 <= p < pools.len()
    &&& config.covers(pools[p].name)
    &&& 0 <= i < pools[p].snapshots.len()
    &&& action.snapshot == pools[p].snapshots[i]
    &&& is_nearest_match(config, pools[p].snapshots, j, i)
    &&& action.parent == Some(pools[p].snapshots[j].name)
}

/// Every backup in the plan that has a parent is the backup of a snapshot of
/// a covered pool, and its parent is the nearest earlier snapshot of that
/// pool that one of the two patterns matches, within its lifetime or not.
pub proof fn law_planned_parent_is_nearest(
    config: ConfigView,
    pools: Seq<PoolView>,
    now: Timestamp,
    action: BackupView,
)
    requires
        plan(config, pools, now).contains(action),
        action.parent is Some,
    ensures
        exists|p: int, i: int, j: int| #[trigger]
            is_increment_on_nearest(config, pools, action, p, i, j),
{
    lemma_planned_has_pool(config, pools, now, action);
    let p = choose|p: int|
        0 <= p < pools.len() && config.covers((#[trigger] pools[p]).name) && pool_plan(
            config,
            pools[p].snapshots,
            now,
        ).contains(action);
    let snapshots = pools[p].snapshots;
    lemma_planned_has_place(config, snapshots, now, action);
    let i = choose|i: int|
        0 <= i < snapshots.len() && #[trigger] action_for(
            config,
            last_uploadable(config, snapshots.take(i)),
            snapshots[i],
            now,
        ) == Some(action);
    law_parent_is_nearest_match(config, snapshots, i);
    let j = choose|j: int| #[trigger]
        is_nearest_match(config, snapshots, j, i) && last_uploadable(config, snapshots.take(i))
            == Some(snapshots[j]);
    assert(is_increment_on_nearest(config, pools, action, p, i, j));
}

/// Where the names of the snapshots of a pool differ, a backup in the plan of
/// the pool that is of the snapshot at `i` and has a parent has for its
/// parent the snapshot at `j`, the nearest before `i` that one of the two
/// patterns matches.
pub proof fn law_parent_of_snapshot(
    config: ConfigView,
    snapshots: Seq<SnapshotView>,
    now: Timestamp,
    action: BackupView,
    i: int,
    j: int,
)
    requires
        snapshot_names_distinct(snapshots),
        pool_plan(config, snapshots, now).contains(action),
        action.parent is Some,
        0 <= i < snapshots.len(),
        action.snapshot == snapshots[i],
        is_nearest_match(config, snapshots, j, i),
    ensures
        action.parent == Some(snapshots[j].name),
{
    lemma_planned_has_place(config, snapshots, now, action);
    let at = choose|at: int|
        0 <= at < snapshots.len() && #[trigger] action_for(
            config,
            last_uploadable(config, snapshots.take(at)),
            snapshots[at],
            now,
        ) == Some(action);
    assert(action.snapshot == snapshots[at]);
    if at < i {
        assert(snapshots[at].name != snapshots[i].name);
    }
    if i < at {
        assert(snapshots[i].name != snapshots[at].name);
    }
    assert(at == i);
    law_parent_is_nearest_match(config, snapshots, i);
    let nearest = choose|nearest: int| #[trigger]
        is_nearest_match(config, snapshots, nearest, i) && last_uploadable(
            config,
            snapshots.take(i),
        ) == Some(snapshots[nearest]);
    if nearest < j {
        assert(!is_matched(config, snapshots[j]));
    }
    if j < nearest {
        assert(!is_matched(config, snapshots[nearest]));
    }
}

/// Every snapshot of a covered pool that the policy sends as an increment,
/// that is not too old and that follows an uploadable snapshot of its pool,
/// has its incremental backup in the plan. The parent of that backup is the
/// uploadable snapshot that comes last before it, which is an earlier
/// snapshot of the same pool: the nearest that one of the two patterns
/// matches. Where the names of the snapshots of the pool differ, the plan of
/// the pool holds this one backup of the snapshot and no other; where no two
/// snapshots of the inventory have the same name, so does the whole plan.
pub proof fn law_incremental_snapshots_planned(
    config: ConfigView,
    pools: Seq<PoolView>,
    now: Timestamp,
    p: int,
    i: int,
)
    requires
        0 <= p < pools.len(),
        config.covers(pools[p].name),
        0 <= i < pools[p].snapshots.len(),
        is_incremental(config, pools[p].snapshots[i]),
        !is_expired(pools[p].snapshots[i].creation, config.incremental.expire_in_days, now),
        last_uploadable(config, pools[p].snapshots.take(i)) is Some,
    ensures
        plan(config, pools, now).contains(
            incremental_backup(
                config,
                last_uploadable(config, pools[p].snapshots.take(i))->0,
                pools[p].snapshots[i],
            ),
        ),
        exists|j: int|
            0 <= j < i && #[trigger] pools[p].snapshots[j] == last_uploadable(
                config,
                pools[p].snapshots.take(i),
            )->0,
        snapshot_names_distinct(pools[p].snapshots) ==> backups_of(
            pool_plan(config, pools[p].snapshots, now),
            pools[p].snapshots[i].name,
        ) == 1,
        exists|j: int| #[trigger]
            is_nearest_match(config, pools[p].snapshots, j, i) && last_uploadable(
                config,
                pools[p].snapshots.take(i),
            ) == Some(pools[p].snapshots[j]),
        inventory_names_distinct(pools) ==> backups_of(
            plan(config, pools, now),
            pools[p].snapshots[i].name,
        ) == 1,
{
    let snapshots = pools[p].snapshots;
    let parent = last_uploadable(config, snapshots.take(i))->0;
    if inventory_names_distinct(pools) {
        law_one_backup_in_plan(config, pools, now, p, i);
    }
    law_parent_is_nearest_match(config, snapshots, i);
    lemma_pool_plan_holds(config, snapshots, now, i);
    lemma_plan_holds_pool(config, pools, now, p, incremental_backup(config, parent, snapshots[i]));
    law_parent_comes_earlier(config, snapshots.take(i));
    let j = choose|j: int|
        0 <= j < snapshots.take(i).len() && #[trigger] snapshots.take(i)[j] == parent;
    assert(snapshots[j] == parent);
    if snapshot_names_distinct(snapshots) {
        lemma_one_backup_each(config, snapshots, now, i);
    }
}

/// The plan of pools put one after the other is the plans of the pools put
/// one after the other.
pub proof fn law_plan_of_concatenation(
    config: ConfigView,
    first: Seq<PoolView>,
    second: Seq<PoolView>,
    now: Timestamp,
)
    ensures
        plan(config, first + second, now) == plan(config, first, now) + plan(config, second, now),
    decreases second.len(),
{
    if second.len() == 0 {
        assert(first + second =~= first);
        assert(plan(config, first, now) + plan(config, second, now) =~= plan(config, first, now));
    } else {
        law_plan_of_concatenation(config, first, second.drop_last(), now);
        assert((first + second).drop_last() =~= first + second.drop_last());
        assert((first + second).last() == second.last());
        let own = if config.covers(second.last().name) {
            pool_plan(config, second.last().snapshots, now)
        } else {
            Seq::empty()
        };
        assert((plan(config, first, now) + plan(config, second.drop_last(), now)) + own =~= plan(
            config,
            first,
            now,
        ) + (plan(config, second.drop_last(), now) + own));
    }
}

/// The plan does not depend on the order of the pools but for its own order:
/// two inventories that hold the same pools, in whatever order, have plans
/// that hold the same backups, each as often in one as in the other.
pub proof fn law_plan_ignores_pool_order(
    config: ConfigView,
    pools: Seq<PoolView>,
    reordered: Seq<PoolView>,
    now: Timestamp,
)
    requires
        pools.to_multiset() == reordered.to_multiset(),
    ensures
        plan(config, pools, now).to_multiset() == plan(config, reordered, now).to_multiset(),
    decreases pools.len(),
{
    broadcast use vstd::multiset::group_multiset_axioms;

    to_multiset_len(pools);
    to_multiset_len(reordered);
    if pools.len() == 0 {
        assert(reordered.len() == 0);
        assert(pools =~= reordered);
    } else {
        let last = pools.last();
        let rest = pools.drop_last();
        assert(rest.push(last) =~= pools);
        to_multiset_build(rest, last);
        assert(pools.to_multiset().count(last) > 0);
        to_multiset_contains(reordered, last);
        let j = choose|j: int| 0 <= j < reordered.len() && reordered[j] == last;
        let others = reordered.remove(j);
        to_multiset_remove(reordered, j);
        assert(rest.to_multiset() =~= pools.to_multiset().remove(last));
        law_plan_ignores_pool_order(config, rest, others, now);
        let head = reordered.subrange(0, j);
        let tail = reordered.subrange(j + 1, reordered.len() as int);
        assert(reordered =~= (head + seq![last]) + tail);
        assert(others =~= head + tail);
        law_plan_of_concatenation(config, head, tail, now);
        law_plan_of_concatenation(config, head, seq![last], now);
        law_plan_of_concatenation(config, head + seq![last], tail, now);
        law_plan_of_concatenation(config, rest, seq![last], now);
        let one = plan(config, seq![last], now);
        let a = plan(config, head, now);
        let b = plan(config, tail, now);
        lemma_multiset_commutative(a, b);
        lemma_multiset_commutative(a, one);
        lemma_multiset_commutative(a + one, b);
        lemma_multiset_commutative(plan(config, rest, now), one);
        let kept = plan(config, rest, now);
        assert(rest + seq![last] =~= pools);
        assert(plan(config, pools, now) == kept + one);
        assert(plan(config, others, now) == a + b);
        assert(plan(config, reordered, now) == (a + one) + b);
        assert(kept.to_multiset() == (a + b).to_multiset());
        assert((kept + one).to_multiset() =~= a.to_multiset().add(b.to_multiset()).add(
            one.to_multiset(),
        ));
        assert(((a + one) + b).to_multiset() =~= a.to_multiset().add(one.to_multiset()).add(
            b.to_multiset(),
        ));
        assert(a.to_multiset().add(b.to_multiset()).add(one.to_multiset()) =~= a.to_multiset().add(
            one.to_multiset(),
        ).add(b.to_multiset()));
    }
}

/// Whether a backup is of a snapshot of `pool`.
pub open spec fn is_of_pool(pool: PoolView) -> spec_fn(BackupView) -> bool {
    |action: BackupView| pool.snapshots.contains(action.snapshot)
}

/// Those of `actions` that are backups of snapshots of `pool`, in their
/// order.
pub open spec fn plan_within(actions: Seq<BackupView>, pool: PoolView) -> Seq<BackupView> {
    actions.filter(is_of_pool(pool))
}

/// Whether `pool` shares no snapshot with another pool of `pools`.
pub open spec fn stands_apart(pools: Seq<PoolView>, pool: PoolView) -> bool {
    forall|other: PoolView, s: SnapshotView|
        pools.contains(other) && other != pool && #[trigger] other.snapshots.contains(s)
            ==> !pool.snapshots.contains(s)
}

/// Whether no snapshot is in two pools of `pools`.
pub open spec fn pools_apart(pools: Seq<PoolView>) -> bool {
    forall|pool: PoolView| #[trigger] pools.contains(pool) ==> stands_apart(pools, pool)
}

/// What the policy plans for `pool` alone: the plan of its snapshots where
/// the policy covers the pool, else nothing.
pub open spec fn plan_of_pool(config: ConfigView, pool: PoolView, now: Timestamp) -> Seq<
    BackupView,
> {
    if config.covers(pool.name) {
        pool_plan(config, pool.snapshots, now)
    } else {
        Seq::empty()
    }
}

/// `actions`, `times` times in a row.
pub open spec fn repeated(actions: Seq<BackupView>, times: nat) -> Seq<BackupView>
    decreases times,
{
    if times == 0 {
        Seq::empty()
    } else {
        repeated(actions, (times - 1) as nat) + actions
    }
}

proof fn lemma_filter_keeps_all(actions: Seq<BackupView>, kept: spec_fn(BackupView) -> bool)
    requires
        forall|k: int| 0 <= k < actions.len() ==> kept(#[trigger] actions[k]),
    ensures
        actions.filter(kept) == actions,
    decreases actions.len(),
{
    reveal(Seq::filter);
    if actions.len() > 0 {
        let before = actions.drop_last();
        assert forall|k: int| 0 <= k < before.len() implies kept(#[trigger] before[k]) by {
            assert(before[k] == actions[k]);
        }
        lemma_filter_keeps_all(before, kept);
        assert(kept(actions[actions.len() - 1]));
        assert(before.push(actions.last()) =~= actions);
    }
}

proof fn lemma_filter_keeps_none(actions: Seq<BackupView>, kept: spec_fn(BackupView) -> bool)
    requires
        forall|k: int| 0 <= k < actions.len() ==> !kept(#[trigger] actions[k]),
    ensures
        actions.filter(kept) == Seq::<BackupView>::empty(),
    decreases actions.len(),
{
    reveal(Seq::filter);
    if actions.len() > 0 {
        let before = actions.drop_last();
        assert forall|k: int| 0 <= k < before.len() implies !kept(#[trigger] before[k]) by {
            assert(before[k] == actions[k]);
        }
        lemma_filter_keeps_none(before, kept);
        assert(!kept(actions[actions.len() - 1]));
    }
}

/// Each backup in the plan of a pool is of one of the pool's snapshots.
pub proof fn lemma_pool_plan_is_of_pool(
    config: ConfigView,
    snapshots: Seq<SnapshotView>,
    now: Timestamp,
    k: int,
)
    requires
        0 <= k < pool_plan(config, snapshots, now).len(),
    ensures
        snapshots.contains(pool_plan(config, snapshots, now)[k].snapshot),
{
    let action = pool_plan(config, snapshots, now)[k];
    lemma_planned_has_place(config, snapshots, now, action);
    let i = choose|i: int|
        0 <= i < snapshots.len() && #[trigger] action_for(
            config,
            last_uploadable(config, snapshots.take(i)),
            snapshots[i],
            now,
        ) == Some(action);
    assert(snapshots[i] == action.snapshot);
}

/// Of the plan of an inventory, the backups of the snapshots of a pool that
/// shares no snapshot with another are what is planned for that pool alone,
/// as often as the pool is in the inventory.
pub proof fn lemma_plan_within_pool(
    config: ConfigView,
    pools: Seq<PoolView>,
    now: Timestamp,
    pool: PoolView,
)
    requires
        stands_apart(pools, pool),
    ensures
        plan_within(plan(config, pools, now), pool) == repeated(
            plan_of_pool(config, pool, now),
            pools.to_multiset().count(pool),
        ),
    decreases pools.len(),
{
    let kept = is_of_pool(pool);
    if pools.len() == 0 {
        reveal(Seq::filter);
        to_multiset_contains(pools, pool);
    } else {
        let rest = pools.drop_last();
        let last = pools.last();
        assert(rest.push(last) =~= pools);
        to_multiset_build(rest, last);
        assert forall|other: PoolView, s: SnapshotView|
            rest.contains(other) && other != pool && #[trigger] other.snapshots.contains(
                s,
            ) implies !pool.snapshots.contains(s) by {
            let at = choose|at: int| 0 <= at < rest.len() && rest[at] == other;
            assert(pools[at] == other);
        }
        lemma_plan_within_pool(config, rest, now, pool);
        let own = plan_of_pool(config, last, now);
        Seq::filter_distributes_over_add(plan(config, rest, now), own, kept);
        assert(plan(config, pools, now) == plan(config, rest, now) + own);
        if last == pool {
            assert forall|k: int| 0 <= k < own.len() implies kept(#[trigger] own[k]) by {
                lemma_pool_plan_is_of_pool(config, pool.snapshots, now, k);
            }
            lemma_filter_keeps_all(own, kept);
            assert(pools.to_multiset().count(pool) == rest.to_multiset().count(pool) + 1);
        } else {
            assert(pools[pools.len() - 1] == last);
            assert forall|k: int| 0 <= k < own.len() implies !kept(#[trigger] own[k]) by {
                lemma_pool_plan_is_of_pool(config, last.snapshots, now, k);
                assert(last.snapshots.contains(own[k].snapshot));
            }
            lemma_filter_keeps_none(own, kept);
            assert(pools.to_multiset().count(pool) == rest.to_multiset().count(pool));
            assert(plan_within(plan(config, rest, now), pool) + Seq::<BackupView>::empty()
                =~= plan_within(plan(config, rest, now), pool));
        }
    }
}

/// A pool stands once in an inventory whose pools have names that differ.
pub proof fn lemma_named_pool_stands_once(pools: Seq<PoolView>, p: int)
    requires
        names_distinct(pools),
        0 <= p < pools.len(),
    ensures
        pools.to_multiset().count(pools[p]) == 1,
    decreases pools.len(),
{
    let rest = pools.drop_last();
    let last = pools.last();
    assert(rest.push(last) =~= pools);
    to_multiset_build(rest, last);
    to_multiset_contains(rest, pools[p]);
    if p == pools.len() - 1 {
        if rest.contains(last) {
            let at = choose|at: int| 0 <= at < rest.len() && rest[at] == last;
            assert(pools[at].name == pools[p].name);
        }
    } else {
        assert(rest[p] == pools[p]);
        assert(pools[p].name != pools[pools.len() - 1].name);
        lemma_named_pool_stands_once(rest, p);
    }
}

/// The order of the pools does not show within a pool: where no snapshot is
/// in two pools, two inventories that hold the same pools, in whatever
/// order, have plans in which the backups of the snapshots of any one pool
/// are the same and stand in the same order. Where the names of the pools
/// differ, they are the plan of that pool alone.
pub proof fn law_plan_keeps_pool_order(
    config: ConfigView,
    pools: Seq<PoolView>,
    reordered: Seq<PoolView>,
    now: Timestamp,
    p: int,
)
    requires
        pools.to_multiset() == reordered.to_multiset(),
        pools_apart(pools),
        0 <= p < pools.len(),
    ensures
        plan_within(plan(config, pools, now), pools[p]) == plan_within(
            plan(config, reordered, now),
            pools[p],
        ),
        names_distinct(pools) ==> plan_within(plan(config, pools, now), pools[p])
            == plan_of_pool(config, pools[p], now),
{
    let pool = pools[p];
    assert(pools.contains(pool));
    assert forall|other: PoolView, s: SnapshotView|
        reordered.contains(other) && other != pool && #[trigger] other.snapshots.contains(
            s,
        ) implies !pool.snapshots.contains(s) by {
        to_multiset_contains(reordered, other);
        to_multiset_contains(pools, other);
    }
    lemma_plan_within_pool(config, pools, now, pool);
    lemma_plan_within_pool(config, reordered, now, pool);
    if names_distinct(pools) {
        lemma_named_pool_stands_once(pools, p);
        let own = plan_of_pool(config, pool, now);
        assert(repeated(own, 1) =~= own) by {
            assert(repeated(own, 0) =~= Seq::<BackupView>::empty());
            assert(repeated(own, 1) == repeated(own, 0) + own);
        }
    }
}

/// Whether no two snapshots of the inventory have the same name, in one pool
/// or in two.
pub open spec fn inventory_names_distinct(pools: Seq<PoolView>) -> bool {
    forall|p: int, i: int, q: int, k: int|
        0 <= p < pools.len() && 0 <= i < pools[p].snapshots.len() && 0 <= q < pools.len() && 0 <= k
            < pools[q].snapshots.len() && (p != q || i != k) ==> (#[trigger] pools[p].snapshots[i]).name
            != (#[trigger] pools[q].snapshots[k]).name
}

/// The backups of a snapshot in two plans, one after the other, are those in
/// the one and those in the other.
pub proof fn lemma_backups_of_adds(first: Seq<BackupView>, second: Seq<BackupView>, name: Seq<char>)
    ensures
        backups_of(first + second, name) == backups_of(first, name) + backups_of(second, name),
    decreases second.len(),
{
    if second.len() == 0 {
        assert(first + second =~= first);
    } else {
        lemma_backups_of_adds(first, second.drop_last(), name);
        assert((first + second).drop_last() =~= first + second.drop_last());
        assert((first + second).last() == second.last());
    }
}

/// The plan holds no backup of a snapshot that is in no pool.
pub proof fn lemma_plan_has_no_backup_of(
    config: ConfigView,
    pools: Seq<PoolView>,
    now: Timestamp,
    name: Seq<char>,
)
    requires
        forall|q: int, k: int|
            0 <= q < pools.len() && 0 <= k < pools[q].snapshots.len() ==> (
            #[trigger] pools[q].snapshots[k]).name != name,
    ensures
        backups_of(plan(config, pools, now), name) == 0,
    decreases pools.len(),
{
    if pools.len() > 0 {
        let rest = pools.drop_last();
        let last = pools.last();
        assert forall|q: int, k: int|
            0 <= q < rest.len() && 0 <= k < rest[q].snapshots.len() implies (
        #[trigger] rest[q].snapshots[k]).name != name by {
            assert(rest[q] == pools[q]);
        }
        lemma_plan_has_no_backup_of(config, rest, now, name);
        let own = plan_of_pool(config, last, now);
        assert(plan(config, pools, now) == plan(config, rest, now) + own);
        lemma_backups_of_adds(plan(config, rest, now), own, name);
        assert forall|k: int| 0 <= k < last.snapshots.len() implies (#[trigger] last.snapshots[k]).name
            != name by {
            assert(pools[pools.len() - 1].snapshots[k] == last.snapshots[k]);
        }
        lemma_backups_are_of_snapshots(config, last.snapshots, now, name);
    }
}

/// Where no two snapshots of the inventory have the same name, the plan
/// holds one backup of a snapshot of a covered pool for which one is
/// planned, and none of any other snapshot of the pool.
pub proof fn law_one_backup_in_plan(
    config: ConfigView,
    pools: Seq<PoolView>,
    now: Timestamp,
    p: int,
    i: int,
)
    requires
        inventory_names_distinct(pools),
        0 <= p < pools.len(),
        config.covers(pools[p].name),
        0 <= i < pools[p].snapshots.len(),
    ensures
        backups_of(plan(config, pools, now), pools[p].snapshots[i].name) == if action_for(
            config,
            last_uploadable(config, pools[p].snapshots.take(i)),
            pools[p].snapshots[i],
            now,
        ) is Some {
            1nat
        } else {
            0nat
        },
    decreases pools.len(),
{
    let name = pools[p].snapshots[i].name;
    let rest = pools.drop_last();
    let last = pools.last();
    let own = plan_of_pool(config, last, now);
    assert(plan(config, pools, now) == plan(config, rest, now) + own);
    lemma_backups_of_adds(plan(config, rest, now), own, name);
    if p == pools.len() - 1 {
        assert forall|q: int, k: int|
            0 <= q < rest.len() && 0 <= k < rest[q].snapshots.len() implies (
        #[trigger] rest[q].snapshots[k]).name != name by {
            assert(rest[q] == pools[q]);
            assert(pools[q].snapshots[k].name != pools[p].snapshots[i].name);
        }
        lemma_plan_has_no_backup_of(config, rest, now, name);
        assert forall|a: int, b: int| 0 <= a < b < last.snapshots.len() implies (
        #[trigger] last.snapshots[a]).name != (#[trigger] last.snapshots[b]).name by {
            assert(pools[p].snapshots[a].name != pools[p].snapshots[b].name);
        }
        lemma_one_backup_each(config, last.snapshots, now, i);
    } else {
        assert(rest[p] == pools[p]);
        assert forall|a: int, b: int, c: int, d: int|
            0 <= a < rest.len() && 0 <= b < rest[a].snapshots.len() && 0 <= c < rest.len() && 0 <= d
                < rest[c].snapshots.len() && (a != c || b != d) implies (
        #[trigger] rest[a].snapshots[b]).name != (#[trigger] rest[c].snapshots[d]).name by {
            assert(rest[a] == pools[a]);
            assert(rest[c] == pools[c]);
            assert(pools[a].snapshots[b].name != pools[c].snapshots[d].name);
        }
        law_one_backup_in_plan(config, rest, now, p, i);
        assert forall|k: int| 0 <= k < last.snapshots.len() implies (#[trigger] last.snapshots[k]).name
            != name by {
            assert(pools[pools.len() - 1].snapshots[k].name != pools[p].snapshots[i].name);
        }
        lemma_backups_are_of_snapshots(config, last.snapshots, now, name);
    }
}

/// Where no two snapshots of the inventory have the same name, a backup in
/// the plan that has a parent and is of the snapshot at `i` of the pool at
/// `p` has for its parent the snapshot at `j` of that pool, the nearest
/// before `i` that one of the two patterns matches.
pub proof fn law_planned_parent_of_snapshot(
    config: ConfigView,
    pools: Seq<PoolView>,
    now: Timestamp,
    action: BackupView,
    p: int,
    i: int,
    j: int,
)
    requires
        inventory_names_distinct(pools),
        plan(config, pools, now).contains(action),
        action.parent is Some,
        0 <= p < pools.len(),
        0 <= i < pools[p].snapshots.len(),
        action.snapshot == pools[p].snapshots[i],
        is_nearest_match(config, pools[p].snapshots, j, i),
    ensures
        action.parent == Some(pools[p].snapshots[j].name),
        config.covers(pools[p].name),
{
    lemma_planned_has_pool(config, pools, now, action);
    let q = choose|q: int|
        0 <= q < pools.len() && config.covers((#[trigger] pools[q]).name) && pool_plan(
            config,
            pools[q].snapshots,
            now,
        ).contains(action);
    lemma_planned_has_place(config, pools[q].snapshots, now, action);
    let k = choose|k: int|
        0 <= k < pools[q].snapshots.len() && #[trigger] action_for(
            config,
            last_uploadable(config, pools[q].snapshots.take(k)),
            pools[q].snapshots[k],
            now,
        ) == Some(action);
    assert(pools[q].snapshots[k] == action.snapshot);
    if q != p || k != i {
        assert(pools[q].snapshots[k].name != pools[p].snapshots[i].name);
    }
    assert forall|a: int, b: int| 0 <= a < b < pools[p].snapshots.len() implies (
    #[trigger] pools[p].snapshots[a]).name != (#[trigger] pools[p].snapshots[b]).name by {
    }
    law_parent_of_snapshot(config, pools[p].snapshots, now, action, i, j);
}

/// Whether each snapshot of each pool of `pools` is named after its pool: the
/// pool's name, an `@`, and a tag.
pub open spec fn snapshots_belong(pools: Seq<PoolView>) -> bool {
    forall|p: int, i: int|
        0 <= p < pools.len() && 0 <= i < pools[p].snapshots.len() ==> belongs_to(
            (#[trigger] pools[p].snapshots[i]).name,
            pools[p].name,
        )
}

/// Whether no two pools of `pools` share a prefix: the name of none, with
/// the `@` that follows it in the name of a snapshot, begins that of
/// another.
pub open spec fn pools_share_no_prefix(pools: Seq<PoolView>) -> bool {
    forall|p: int, q: int|
        0 <= p < pools.len() && 0 <= q < pools.len() && p != q ==> !(#[trigger] pools[p]).name.push(
            '@',
        ).is_prefix_of((#[trigger] pools[q]).name.push('@'))
}

proof fn lemma_prefixes_nest(shorter: Seq<char>, longer: Seq<char>, text: Seq<char>)
    requires
        shorter.is_prefix_of(text),
        longer.is_prefix_of(text),
        shorter.len() <= longer.len(),
    ensures
        shorter.is_prefix_of(longer),
{
    assert forall|k: int| 0 <= k < shorter.len() implies shorter[k] == longer[k] by {
        assert(shorter[k] == text.subrange(0, shorter.len() as int)[k]);
        assert(longer[k] == text.subrange(0, longer.len() as int)[k]);
    }
    assert(shorter =~= longer.subrange(0, shorter.len() as int));
}

/// Pools that share no prefix share no snapshot, where each snapshot is
/// named after its pool.
pub proof fn lemma_unrelated_pools_stand_apart(pools: Seq<PoolView>)
    requires
        snapshots_belong(pools),
        pools_share_no_prefix(pools),
    ensures
        pools_apart(pools),
        names_distinct(pools),
{
    assert forall|pool: PoolView| #[trigger] pools.contains(pool) implies stands_apart(
        pools,
        pool,
    ) by {
        let p = choose|p: int| 0 <= p < pools.len() && pools[p] == pool;
        assert forall|other: PoolView, s: SnapshotView|
            pools.contains(other) && other != pool && #[trigger] other.snapshots.contains(
                s,
            ) implies !pool.snapshots.contains(s) by {
            let q = choose|q: int| 0 <= q < pools.len() && pools[q] == other;
            let k = choose|k: int| 0 <= k < other.snapshots.len() && other.snapshots[k] == s;
            if pool.snapshots.contains(s) {
                let i = choose|i: int| 0 <= i < pool.snapshots.len() && pool.snapshots[i] == s;
                assert(belongs_to(pools[p].snapshots[i].name, pools[p].name));
                assert(belongs_to(pools[q].snapshots[k].name, pools[q].name));
                let own = pools[p].name.push('@');
                let foreign = pools[q].name.push('@');
                if own.len() <= foreign.len() {
                    lemma_prefixes_nest(own, foreign, s.name);
                } else {
                    lemma_prefixes_nest(foreign, own, s.name);
                }
            }
        }
    }
    assert forall|i: int, j: int| 0 <= i < j < pools.len() implies (#[trigger] pools[i]).name != (
    #[trigger] pools[j]).name by {
        if pools[i].name == pools[j].name {
            let shared = pools[i].name.push('@');
            assert(shared =~= shared.subrange(0, shared.len() as int));
            assert(shared.is_prefix_of(pools[j].name.push('@')));
        }
    }
}

/// In an inventory built from a listing of snapshots, each snapshot of each
/// pool is named after its pool.
pub proof fn lemma_inventory_snapshots_belong(names: Seq<Seq<char>>, snapshots: Seq<SnapshotView>)
    ensures
        snapshots_belong(inventory_of(names, snapshots)),
    decreases names.len(),
{
    if names.len() > 0 {
        let before = inventory_of(names.drop_last(), snapshots);
        lemma_inventory_snapshots_belong(names.drop_last(), snapshots);
        let name = names.last();
        let pool = PoolView { name, snapshots: snapshots_of_pool(snapshots, name) };
        let all = with_pool(before, pool);
        snapshots.filter_lemma(|s: SnapshotView| belongs_to(s.name, name));
        assert forall|p: int, i: int|
            0 <= p < all.len() && 0 <= i < all[p].snapshots.len() implies belongs_to(
            (#[trigger] all[p].snapshots[i]).name,
            all[p].name,
        ) by {
            if all[p] == pool {
            } else {
                assert(before[p] == all[p]);
            }
        }
    }
}

/// The plan is stable under a new order of pools that share no prefix: where
/// each snapshot is named after its pool, two inventories that hold the same
/// pools, in whatever order, have plans that hold the same backups, and the
/// backups of the snapshots of each pool are, in both, the plan of that pool
/// alone, in its order.
pub proof fn law_plan_is_stable_under_pool_order(
    config: ConfigView,
    pools: Seq<PoolView>,
    reordered: Seq<PoolView>,
    now: Timestamp,
    p: int,
)
    requires
        pools.to_multiset() == reordered.to_multiset(),
        snapshots_belong(pools),
        pools_share_no_prefix(pools),
        0 <= p < pools.len(),
    ensures
        plan(config, pools, now).to_multiset() == plan(config, reordered, now).to_multiset(),
        plan_within(plan(config, pools, now), pools[p]) == plan_of_pool(config, pools[p], now),
        plan_within(plan(config, reordered, now), pools[p]) == plan_of_pool(config, pools[p], now),
{
    lemma_unrelated_pools_stand_apart(pools);
    law_plan_ignores_pool_order(config, pools, reordered, now);
    law_plan_keeps_pool_order(config, pools, reordered, now, p);
}

} // verus!
