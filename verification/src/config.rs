//! The backup policy of a bucket: which pools it covers, which snapshots are
//! sent in full and which as increments, and for how long each kind is kept.

use crate::pattern::is_match;
use crate::pattern::is_valid;
use crate::pattern::pattern_is_valid;
use crate::pattern::pattern_matches;
use crate::s3_utils::StorageClass;
use vstd::prelude::*;

verus! {

/// The policy for one kind of backup, full or incremental.
#[derive(Clone, PartialEq, Eq, Debug)]
pub struct ZfsBackupConfigEntry {
    /// The regular expression that picks the snapshots by their names.
    pub snapshot_regex: String,
    pub storage_class: StorageClass,
    /// The days for which the store keeps such a backup.
    pub expire_in_days: i64,
}

/// A `ZfsBackupConfigEntry` as plain values.
pub struct EntryView {
    pub snapshot_regex: Seq<char>,
    pub storage_class: StorageClass,
    pub expire_in_days: int,
}

impl View for ZfsBackupConfigEntry {
    type V = EntryView;

    open spec fn view(&self) -> EntryView {
        EntryView {
            snapshot_regex: self.snapshot_regex@,
            storage_class: self.storage_class,
            expire_in_days: self.expire_in_days as int,
        }
    }
}

/// The policy of one bucket.
#[derive(Clone, PartialEq, Eq, Debug)]
pub struct ZfsBackupConfig {
    /// The regular expression that picks the pools by their paths.
    pub pool_regex: String,
    pub incremental: ZfsBackupConfigEntry,
    pub full: ZfsBackupConfigEntry,
    pub bucket: String,
}

/// A `ZfsBackupConfig` as plain values.
pub struct ConfigView {
    pub pool_regex: Seq<char>,
    pub incremental: EntryView,
    pub full: EntryView,
    pub bucket: Seq<char>,
}

impl View for ZfsBackupConfig {
    type V = ConfigView;

    open spec fn view(&self) -> ConfigView {
        ConfigView {
            pool_regex: self.pool_regex@,
            incremental: self.incremental@,
            full: self.full@,
            bucket: self.bucket@,
        }
    }
}

impl DeepView for ZfsBackupConfig {
    type V = ConfigView;

    open spec fn deep_view(&self) -> ConfigView {
        self@
    }
}

/// The whole configuration: one policy for each bucket.
#[derive(Clone, PartialEq, Eq, Debug)]
pub struct ZfsBaseConfig {
    pub configs: Vec<ZfsBackupConfig>,
}

impl View for ZfsBaseConfig {
    type V = Seq<ConfigView>;

    open spec fn view(&self) -> Seq<ConfigView> {
        self.configs.deep_view()
    }
}

impl EntryView {
    /// Whether the snapshot pattern is a regular expression.
    pub open spec fn wf(self) -> bool {
        pattern_is_valid(self.snapshot_regex)
    }

    /// Whether the snapshot pattern matches the snapshot name `name`.
    pub open spec fn matches(self, name: Seq<char>) -> bool {
        pattern_matches(self.snapshot_regex, name)
    }
}

impl ConfigView {
    /// Whether the three patterns of the policy are regular expressions.
    pub open spec fn wf(self) -> bool {
        &&& pattern_is_valid(self.pool_regex)
        &&& self.incremental.wf()
        &&& self.full.wf()
    }

    /// Whether the policy covers the pool `pool`.
    pub open spec fn covers(self, pool: Seq<char>) -> bool {
        pattern_matches(self.pool_regex, pool)
    }
}

impl ZfsBackupConfigEntry {
    /// Whether the snapshot pattern matches the snapshot name `name`.
    pub fn matches_snapshot(&self, name: &str) -> (found: bool)
        requires
            self@.wf(),
        ensures
            found == self@.matches(name@),
    {
        is_match(self.snapshot_regex.as_str(), name)
    }
}

impl ZfsBackupConfig {
    /// Whether the policy covers the pool `pool`.
    pub fn matches_pool(&self, pool: &str) -> (found: bool)
        requires
            self@.wf(),
        ensures
            found == self@.covers(pool@),
    {
        is_match(self.pool_regex.as_str(), pool)
    }

    /// Whether the three patterns of the policy are regular expressions.
    pub fn is_valid(&self) -> (valid: bool)
        ensures
            valid == self@.wf(),
    {
        is_valid(self.pool_regex.as_str()) && is_valid(self.incremental.snapshot_regex.as_str())
            && is_valid(self.full.snapshot_regex.as_str())
    }
}

} // verus!
