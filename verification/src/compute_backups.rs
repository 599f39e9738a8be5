//! The backup planner: which snapshots of the inventory are to be sent to a
//! bucket, each in full or as an increment on the snapshot sent before it,
//! and which of them the bucket does not hold yet.

use crate::clock::expired;
use crate::clock::is_expired;
use crate::clock::now;
use crate::clock::Timestamp;
use crate::config::ConfigView;
use crate::config::ZfsBackupConfig;
use crate::s3_utils::S3Key;
use crate::s3_utils::StorageClass;
use crate::s3_utils::Tag;
use crate::text::parse_usize;
use crate::text::parse_usize_seq;
use crate::text::replace;
use crate::text::replace_seq;
use crate::text::split;
use crate::text::split_seq;
use crate::text::trim;
use crate::text::trim_seq;
use crate::zfs_utils::LocalZfsState;
use crate::zfs_utils::PoolView;
use crate::zfs_utils::SnapshotView;
use crate::zfs_utils::ZfsSnapshot;
use vstd::prelude::*;
use vstd::string::StringExecFns;

verus! {

/// A backup to make: a snapshot to send to a bucket, in full where `parent`
/// is `None`, else as the changes since the snapshot `parent`.
#[derive(Debug, Eq, PartialEq, Hash, Clone)]
pub struct S3Backup {
    pub snapshot: ZfsSnapshot,
    pub parent: Option<String>,
    pub storage_class: StorageClass,
    pub bucket: String,
}

/// An `S3Backup` as plain values.
pub struct BackupView {
    pub snapshot: SnapshotView,
    pub parent: Option<Seq<char>>,
    pub storage_class: StorageClass,
    pub bucket: Seq<char>,
}

impl View for S3Backup {
    type V = BackupView;

    open spec fn view(&self) -> BackupView {
        BackupView {
            snapshot: self.snapshot@,
            parent: match self.parent {
                Some(name) => Some(name@),
                None => None,
            },
            storage_class: self.storage_class,
            bucket: self.bucket@,
        }
    }
}

impl DeepView for S3Backup {
    type V = BackupView;

    open spec fn deep_view(&self) -> BackupView {
        self@
    }
}

impl BackupView {
    /// The key of the backup in its bucket: `full/` or `incremental/`, then
    /// the snapshot's name with `_AT_` for each `@`.
    pub open spec fn key(self) -> Seq<char> {
        (if self.parent is Some {
            "incremental/"@
        } else {
            "full/"@
        }) + replace_seq(self.snapshot.name, "@"@, "_AT_"@)
    }

    /// The command line that writes the backup to its standard output, or,
    /// as a dry run, a report that ends in the estimated size.
    pub open spec fn command(self, dryrun: bool) -> Seq<char> {
        "zfs send -Pw"@ + (if dryrun {
            "vn"@
        } else {
            Seq::empty()
        }) + (match self.parent {
            Some(parent) => " -i "@ + parent,
            None => Seq::empty(),
        }) + " "@ + self.snapshot.name
    }

    /// The line that describes the backup in a report.
    pub open spec fn description(self) -> Seq<char> {
        "S3Backup "@ + self.key() + ", incremental "@ + (if self.parent is Some {
            "true"@
        } else {
            "false"@
        })
    }

    /// The tags of the uploaded backup: the command that made it, its parent
    /// or `full`, and the date of the snapshot.
    pub open spec fn tags(self, creation_date: Seq<char>) -> Seq<(Seq<char>, Seq<char>)> {
        seq![
            ("backup_cmd"@, self.command(false)),
            (
                "parent"@,
                match self.parent {
                    Some(parent) => parent,
                    None => "full"@,
                },
            ),
            ("creation_date"@, creation_date),
        ]
    }
}

/// The key of a backup begins with `full/` exactly where the backup has no
/// parent.
pub proof fn law_key_tells_kind(action: BackupView)
    ensures
        "full/"@.is_prefix_of(action.key()) <==> action.parent is None,
{
    reveal_strlit("full/");
    reveal_strlit("incremental/");
    let key = action.key();
    if action.parent is None {
        assert(key.subrange(0, 5) =~= "full/"@);
    } else {
        assert(key[0] == 'i');
        if "full/"@.is_prefix_of(key) {
            assert(key.subrange(0, 5)[0] == 'f');
        }
    }
}

/// The size that the report of a dry run ends in: what follows the last tab,
/// without the white space around it, read as a number.
pub open spec fn estimated_size_of(report: Seq<char>) -> Option<usize> {
    parse_usize_seq(trim_seq(split_seq(report, '\t').last()))
}

/// Reads the estimated size off the report of a dry run; `None` where the
/// report does not end in a number.
pub fn get_estimated_size(report: &str) -> (size: Option<usize>)
    ensures
        size == estimated_size_of(report@),
{
    let fields = split(report, '\t');
    proof {
        crate::text::lemma_split_joins(report@, '\t');
        assert(fields.deep_view().last() == fields@[fields.len() - 1]@);
    }
    let last = trim(fields[fields.len() - 1].as_str());
    parse_usize(last.as_str())
}

impl S3Backup {
    /// The backup of `snapshot` under the policy `config`: an increment on
    /// `parent` where there is one, in the policy's storage class for
    /// increments, else a full backup in the class for full backups.
    pub fn new(snapshot: &ZfsSnapshot, parent: Option<&ZfsSnapshot>, config: &ZfsBackupConfig) -> (backup:
        S3Backup)
        ensures
            backup@ == (BackupView {
                snapshot: snapshot@,
                parent: match parent {
                    Some(p) => Some(p@.name),
                    None => None,
                },
                storage_class: if parent is Some {
                    config@.incremental.storage_class
                } else {
                    config@.full.storage_class
                },
                bucket: config@.bucket,
            }),
    {
        match parent {
            Some(p) => S3Backup {
                snapshot: snapshot.duplicate(),
                parent: Some(p.name.clone()),
                storage_class: config.incremental.storage_class,
                bucket: config.bucket.clone(),
            },
            None => S3Backup {
                snapshot: snapshot.duplicate(),
                parent: None,
                storage_class: config.full.storage_class,
                bucket: config.bucket.clone(),
            },
        }
    }

    /// A copy of this backup.
    pub fn duplicate(&self) -> (copy: S3Backup)
        ensures
            copy@ == self@,
    {
        S3Backup {
            snapshot: self.snapshot.duplicate(),
            parent: match &self.parent {
                Some(name) => Some(name.clone()),
                None => None,
            },
            storage_class: self.storage_class,
            bucket: self.bucket.clone(),
        }
    }

    /// The key of the backup in its bucket. It begins with `full/` exactly
    /// where the backup has no parent.
    pub fn key(&self) -> (key: String)
        ensures
            key@ == self@.key(),
            "full/"@.is_prefix_of(key@) <==> self@.parent is None,
    {
        let mut key = match &self.parent {
            Some(_) => String::from_str("incremental/"),
            None => String::from_str("full/"),
        };
        let name = replace(self.snapshot.name.as_str(), "@", "_AT_");
        key.append(name.as_str());
        proof {
            law_key_tells_kind(self@);
        }
        key
    }

    /// The command line that writes the backup to its standard output, or,
    /// as a dry run, a report that ends in the estimated size.
    pub fn backup_cmd(&self, dryrun: bool) -> (command: String)
        ensures
            command@ == self@.command(dryrun),
    {
        let mut command = String::from_str("zfs send -Pw");
        if dryrun {
            command.append("vn");
        }
        match &self.parent {
            Some(parent) => {
                command.append(" -i ");
                command.append(parent.as_str());
            },
            None => {},
        }
        command.append(" ");
        command.append(self.snapshot.name.as_str());
        assert(command@ =~= self@.command(dryrun));
        command
    }

    /// The line that describes the backup in a report.
    pub fn to_string(&self) -> (line: String)
        ensures
            line@ == self@.description(),
    {
        let mut line = String::from_str("S3Backup ");
        let key = self.key();
        line.append(key.as_str());
        line.append(", incremental ");
        if self.parent.is_some() {
            line.append("true");
        } else {
            line.append("false");
        }
        line
    }

    /// The tags of the uploaded backup. `creation_date` is the date of the
    /// snapshot as the tag is to show it.
    pub fn tags(&self, creation_date: String) -> (tags: Vec<Tag>)
        ensures
            tags.deep_view() == self@.tags(creation_date@),
    {
        let mut tags: Vec<Tag> = Vec::new();
        tags.push(Tag { key: String::from_str("backup_cmd"), value: self.backup_cmd(false) });
        let parent = match &self.parent {
            Some(parent) => parent.clone(),
            None => String::from_str("full"),
        };
        tags.push(Tag { key: String::from_str("parent"), value: parent });
        tags.push(Tag { key: String::from_str("creation_date"), value: creation_date });
        assert(tags.deep_view() =~= self@.tags(creation_date@));
        tags
    }
}

/// Whether the policy sends the snapshot `s` as an increment: the pattern for
/// increments matches its name.
pub open spec fn is_incremental(config: ConfigView, s: SnapshotView) -> bool {
    config.incremental.matches(s.name)
}

/// Whether the policy sends the snapshot `s` in full: the pattern for full
/// backups matches its name and the pattern for increments does not.
pub open spec fn is_full(config: ConfigView, s: SnapshotView) -> bool {
    !is_incremental(config, s) && config.full.matches(s.name)
}

/// The snapshot that an increment made after `snapshots` has for its parent:
/// the last of them that was sent or would have been, whatever its age. A
/// full snapshot always is one; a snapshot for an increment is one where it
/// has a parent itself; any other snapshot is passed over.
pub open spec fn last_uploadable(config: ConfigView, snapshots: Seq<SnapshotView>) -> Option<
    SnapshotView,
>
    decreases snapshots.len(),
{
    if snapshots.len() == 0 {
        None
    } else {
        let before = last_uploadable(config, snapshots.drop_last());
        let s = snapshots.last();
        if is_incremental(config, s) {
            if before is Some {
                Some(s)
            } else {
                None
            }
        } else if is_full(config, s) {
            Some(s)
        } else {
            before
        }
    }
}

/// The full backup of `s` under the policy.
pub open spec fn full_backup(config: ConfigView, s: SnapshotView) -> BackupView {
    BackupView {
        snapshot: s,
        parent: None,
        storage_class: config.full.storage_class,
        bucket: config.bucket,
    }
}

/// The backup of `s` as an increment on `parent` under the policy.
pub open spec fn incremental_backup(config: ConfigView, parent: SnapshotView, s: SnapshotView) -> BackupView {
    BackupView {
        snapshot: s,
        parent: Some(parent.name),
        storage_class: config.incremental.storage_class,
        bucket: config.bucket,
    }
}

/// The backup that the policy asks for of the snapshot `s` at `now`, where
/// `parent` is the last uploadable snapshot before `s`. An increment needs a
/// parent; no backup is made of a snapshot older than its kind is kept, with
/// one day of grace.
pub open spec fn action_for(
    config: ConfigView,
    parent: Option<SnapshotView>,
    s: SnapshotView,
    now: Timestamp,
) -> Option<BackupView> {
    if is_incremental(config, s) {
        if parent is Some && !is_expired(s.creation, config.incremental.expire_in_days, now) {
            Some(incremental_backup(config, parent->0, s))
        } else {
            None
        }
    } else if is_full(config, s) && !is_expired(s.creation, config.full.expire_in_days, now) {
        Some(full_backup(config, s))
    } else {
        None
    }
}

/// The backups that the policy asks for of the snapshots of one pool at
/// `now`, in the order of the snapshots.
pub open spec fn pool_plan(config: ConfigView, snapshots: Seq<SnapshotView>, now: Timestamp) -> Seq<
    BackupView,
>
    decreases snapshots.len(),
{
    if snapshots.len() == 0 {
        Seq::empty()
    } else {
        let before = snapshots.drop_last();
        match action_for(config, last_uploadable(config, before), snapshots.last(), now) {
            Some(action) => pool_plan(config, before, now).push(action),
            None => pool_plan(config, before, now),
        }
    }
}

/// The backups that the policy asks for at `now`: those of each pool that
/// the policy covers, pool after pool.
pub open spec fn plan(config: ConfigView, pools: Seq<PoolView>, now: Timestamp) -> Seq<BackupView>
    decreases pools.len(),
{
    if pools.len() == 0 {
        Seq::empty()
    } else {
        plan(config, pools.drop_last(), now) + if config.covers(pools.last().name) {
            pool_plan(config, pools.last().snapshots, now)
        } else {
            Seq::empty()
        }
    }
}

/// The kind of a backup.
#[derive(Copy, Clone, PartialEq, Eq, Debug)]
pub enum BackupKind {
    /// The whole snapshot.
    Full,
    /// The changes since the parent.
    Incremental,
}

/// What the planner makes of one snapshot.
#[derive(Copy, Clone, PartialEq, Eq, Debug)]
pub struct Decision {
    /// The backup to make of the snapshot, where one is to be made.
    pub backup: Option<BackupKind>,
    /// Whether the snapshot is the parent of the increment that comes next.
    pub becomes_parent: bool,
}

/// What the planner makes of a snapshot, given what is known of it: whether
/// the pattern for increments and the pattern for full backups match its
/// name, whether an uploadable snapshot comes before it in its pool, and
/// whether it is too old for an increment and for a full backup.
///
/// The pattern for increments is asked first. An increment needs a parent:
/// without one the snapshot is passed over, and is no parent itself; with
/// one it becomes the parent, whatever its age, and is sent unless it is too
/// old. A snapshot for a full backup always becomes the parent and is sent
/// unless it is too old. Any other snapshot is passed over.
pub open spec fn decision_for(
    matches_incremental: bool,
    matches_full: bool,
    has_parent: bool,
    incremental_expired: bool,
    full_expired: bool,
) -> Decision {
    if matches_incremental {
        Decision {
            backup: if has_parent && !incremental_expired {
                Some(BackupKind::Incremental)
            } else {
                None
            },
            becomes_parent: has_parent,
        }
    } else if matches_full {
        Decision {
            backup: if full_expired {
                None
            } else {
                Some(BackupKind::Full)
            },
            becomes_parent: true,
        }
    } else {
        Decision { backup: None, becomes_parent: false }
    }
}

/// Decides what to make of one snapshot.
pub fn decide(
    matches_incremental: bool,
    matches_full: bool,
    has_parent: bool,
    incremental_expired: bool,
    full_expired: bool,
) -> (decision: Decision)
    ensures
        decision == decision_for(
            matches_incremental,
            matches_full,
            has_parent,
            incremental_expired,
            full_expired,
        ),
{
    if matches_incremental {
        if has_parent {
            Decision {
                backup: if incremental_expired {
                    None
                } else {
                    Some(BackupKind::Incremental)
                },
                becomes_parent: true,
            }
        } else {
            Decision { backup: None, becomes_parent: false }
        }
    } else if matches_full {
        Decision {
            backup: if full_expired {
                None
            } else {
                Some(BackupKind::Full)
            },
            becomes_parent: true,
        }
    } else {
        Decision { backup: None, becomes_parent: false }
    }
}

/// The decision on the snapshot `s` that comes after `snapshots` in its pool.
pub open spec fn decision_on(
    config: ConfigView,
    snapshots: Seq<SnapshotView>,
    s: SnapshotView,
    now: Timestamp,
) -> Decision {
    decision_for(
        config.incremental.matches(s.name),
        config.full.matches(s.name),
        last_uploadable(config, snapshots) is Some,
        is_expired(s.creation, config.incremental.expire_in_days, now),
        is_expired(s.creation, config.full.expire_in_days, now),
    )
}

/// The plan is made of the decisions: the backup planned for a snapshot is
/// the one decided on, an increment on the last uploadable snapshot before
/// it or a full backup, and the snapshot is the last uploadable one from
/// then on exactly where the decision makes it the parent.
pub proof fn law_decisions_make_the_plan(
    config: ConfigView,
    snapshots: Seq<SnapshotView>,
    s: SnapshotView,
    now: Timestamp,
)
    ensures
        action_for(config, last_uploadable(config, snapshots), s, now) == match decision_on(
            config,
            snapshots,
            s,
            now,
        ).backup {
            Some(BackupKind::Incremental) => Some(
                incremental_backup(config, last_uploadable(config, snapshots)->0, s),
            ),
            Some(BackupKind::Full) => Some(full_backup(config, s)),
            None => None,
        },
        last_uploadable(config, snapshots.push(s)) == if decision_on(
            config,
            snapshots,
            s,
            now,
        ).becomes_parent {
            Some(s)
        } else {
            last_uploadable(config, snapshots)
        },
{
    assert(snapshots.push(s).drop_last() =~= snapshots);
    assert(snapshots.push(s).last() == s);
}

/// Adds to `pending` the backups of one pool.
fn plan_pool(
    snapshots: &Vec<ZfsSnapshot>,
    config: &ZfsBackupConfig,
    now: Timestamp,
    pending: &mut Vec<S3Backup>,
)
    requires
        config@.wf(),
    ensures
        final(pending).deep_view() == old(pending).deep_view() + pool_plan(
            config@,
            snapshots.deep_view(),
            now,
        ),
{
    let ghost start = pending.deep_view();
    let mut last_entry: Option<usize> = None;
    let mut i: usize = 0;
    proof {
        assert(snapshots.deep_view().take(0) =~= Seq::<SnapshotView>::empty());
        assert(start + Seq::<BackupView>::empty() =~= start);
    }
    while i < snapshots.len()
        invariant
            i <= snapshots.len(),
            config@.wf(),
            pending.deep_view() == start + pool_plan(
                config@,
                snapshots.deep_view().take(i as int),
                now,
            ),
            match last_entry {
                Some(k) => k < i && last_uploadable(config@, snapshots.deep_view().take(i as int))
                    == Some(snapshots@[k as int]@),
                None => last_uploadable(config@, snapshots.deep_view().take(i as int)) is None,
            },
        decreases snapshots.len() - i,
    {
        let snapshot = &snapshots[i];
        let ghost seen = snapshots.deep_view().take(i as int);
        let ghost listed = pending.deep_view();
        proof {
            assert(snapshots.deep_view().take(i + 1).drop_last() =~= seen);
            assert(snapshots.deep_view().take(i + 1).last() == snapshot@);
        }
        proof {
            law_decisions_make_the_plan(config@, seen, snapshot@, now);
            assert(seen.push(snapshot@) =~= snapshots.deep_view().take(i + 1));
        }
        let decision = decide(
            config.incremental.matches_snapshot(snapshot.name.as_str()),
            config.full.matches_snapshot(snapshot.name.as_str()),
            last_entry.is_some(),
            expired(snapshot.creation, config.incremental.expire_in_days, now),
            expired(snapshot.creation, config.full.expire_in_days, now),
        );
        assert(decision == decision_on(config@, seen, snapshot@, now));
        let planned = match (decision.backup, last_entry) {
            (Some(BackupKind::Incremental), Some(k)) => Some(
                S3Backup::new(snapshot, Some(&snapshots[k]), config),
            ),
            (Some(BackupKind::Full), _) => Some(S3Backup::new(snapshot, None, config)),
            _ => None,
        };
        match planned {
            Some(action) => {
                pending.push(action);
                assert(pending.deep_view() =~= listed.push(action@));
                assert(start + pool_plan(config@, seen, now).push(action@) =~= listed.push(
                    action@,
                ));
            },
            None => {},
        }
        if decision.becomes_parent {
            last_entry = Some(i);
        }
        i += 1;
    }
    assert(snapshots.deep_view().take(snapshots.len() as int) =~= snapshots.deep_view());
}

/// Plans the backups of the inventory under the policy `config`, as of
/// `now`: for each pool that the policy covers, in the order of the
/// inventory, the backups of its snapshots in their order.
pub fn get_pending_actions_at(
    local_state: &LocalZfsState,
    config: &ZfsBackupConfig,
    now: Timestamp,
) -> (actions: Vec<S3Backup>)
    requires
        config@.wf(),
    ensures
        actions.deep_view() == plan(config@, local_state@, now),
{
    let pools = local_state.pools();
    let mut pending: Vec<S3Backup> = Vec::new();
    let mut i: usize = 0;
    proof {
        assert(pools.deep_view().take(0) =~= Seq::<PoolView>::empty());
        assert(pending.deep_view() =~= Seq::<BackupView>::empty());
    }
    while i < pools.len()
        invariant
            i <= pools.len(),
            config@.wf(),
            pools.deep_view() == local_state@,
            pending.deep_view() == plan(config@, pools.deep_view().take(i as int), now),
        decreases pools.len() - i,
    {
        proof {
            assert(pools.deep_view().take(i + 1).drop_last() =~= pools.deep_view().take(i as int));
            assert(pools.deep_view().take(i + 1).last() == pools@[i as int]@);
            assert(pending.deep_view() + Seq::<BackupView>::empty() =~= pending.deep_view());
        }
        if config.matches_pool(pools[i].name.as_str()) {
            plan_pool(&pools[i].snapshots, config, now, &mut pending);
        }
        i += 1;
    }
    assert(pools.deep_view().take(pools.len() as int) =~= pools.deep_view());
    pending
}

/// Plans the backups of the inventory under the policy `config`, as of the
/// time of the call.
pub fn get_pending_actions(local_state: &LocalZfsState, config: &ZfsBackupConfig) -> (actions: Vec<
    S3Backup,
>)
    requires
        config@.wf(),
    ensures
        exists|now: Timestamp| actions.deep_view() == plan(config@, local_state@, now),
{
    get_pending_actions_at(local_state, config, now())
}

/// Plans the backups of the inventory under the policy `config`, as of the
/// time of the call; `None` where a pattern of the policy is no regular
/// expression.
pub fn try_get_pending_actions(local_state: &LocalZfsState, config: &ZfsBackupConfig) -> (actions:
    Option<Vec<S3Backup>>)
    ensures
        actions is Some == config@.wf(),
        actions matches Some(list) ==> exists|now: Timestamp|
            list.deep_view() == plan(config@, local_state@, now),
{
    if config.is_valid() {
        Some(get_pending_actions(local_state, config))
    } else {
        None
    }
}

/// The keys of the objects of a bucket listing.
pub open spec fn keys_of(objects: Seq<(Seq<char>, Seq<char>)>) -> Set<Seq<char>> {
    Set::new(|key: Seq<char>| exists|i: int| 0 <= i < objects.len() && (#[trigger] objects[i]).0 == key)
}

/// Those of `actions` whose key is none of `keys`, in their order.
pub open spec fn not_stored(actions: Seq<BackupView>, keys: Set<Seq<char>>) -> Seq<BackupView> {
    actions.filter(|action: BackupView| !keys.contains(action.key()))
}

/// Whether `objects` holds an object under `key`.
fn holds_key(objects: &Vec<S3Key>, key: &String) -> (held: bool)
    ensures
        held == keys_of(objects.deep_view()).contains(key@),
{
    let mut i: usize = 0;
    while i < objects.len()
        invariant
            i <= objects.len(),
            forall|k: int| 0 <= k < i ==> (#[trigger] objects.deep_view()[k]).0 != key@,
        decreases objects.len() - i,
    {
        if objects[i].key == *key {
            assert(objects.deep_view()[i as int].0 == key@);
            return true;
        }
        i += 1;
    }
    false
}

/// Leaves out what a bucket holds already.
pub trait FilterExistingFiles {
    /// The backups whose keys the bucket does not hold, in their order.
    /// `existing` is the listing of the bucket; only the keys in it count.
    fn filter_existing_backups(self, existing: &Vec<S3Key>) -> Vec<S3Backup>;
}

impl FilterExistingFiles for Vec<S3Backup> {
    fn filter_existing_backups(self, existing: &Vec<S3Key>) -> (kept: Vec<S3Backup>)
        ensures
            kept.deep_view() == not_stored(self.deep_view(), keys_of(existing.deep_view())),
            forall|i: int|
                0 <= i < kept.len() ==> !keys_of(existing.deep_view()).contains(
                    (#[trigger] kept.deep_view()[i]).key(),
                ),
    {
        let ghost keys = keys_of(existing.deep_view());
        let ghost unknown = |action: BackupView| !keys.contains(action.key());
        let mut kept: Vec<S3Backup> = Vec::new();
        let mut i: usize = 0;
        proof {
            assert(self.deep_view().take(0) =~= Seq::<BackupView>::empty());
            reveal(Seq::filter);
            assert(kept.deep_view() =~= Seq::<BackupView>::empty().filter(unknown));
        }
        while i < self.len()
            invariant
                i <= self.len(),
                keys == keys_of(existing.deep_view()),
                unknown == |action: BackupView| !keys.contains(action.key()),
                kept.deep_view() == self.deep_view().take(i as int).filter(unknown),
                forall|k: int| 0 <= k < kept.len() ==> !keys.contains((#[trigger] kept.deep_view()[k]).key()),
            decreases self.len() - i,
        {
            let ghost seen = self.deep_view().take(i as int);
            let ghost current = self@[i as int]@;
            let ghost chosen = kept.deep_view();
            proof {
                assert(self.deep_view().take(i + 1) =~= seen.push(current));
                seen.lemma_filter_push(current, unknown);
            }
            let key = self[i].key();
            if !holds_key(existing, &key) {
                kept.push(self[i].duplicate());
                assert(kept.deep_view() =~= chosen.push(current));
            }
            i += 1;
        }
        assert(self.deep_view().take(self.len() as int) =~= self.deep_view());
        kept
    }
}

} // verus!
