//! The local inventory: the pools of this machine and the snapshots of each,
//! as the volume manager lists them.

use crate::text::parse_i64;
use crate::text::parse_i64_seq;
use crate::text::split;
use crate::text::split_seq;
use crate::text::starts_with;
use vstd::prelude::*;
use vstd::string::StringExecFns;

verus! {

/// A snapshot: its name, `pool@tag`, and the second of its creation, counted
/// from the start of 1970.
#[derive(Hash, Clone, Eq, PartialEq, Debug)]
pub struct ZfsSnapshot {
    pub name: String,
    pub creation: i64,
}

/// A `ZfsSnapshot` as plain values.
pub struct SnapshotView {
    pub name: Seq<char>,
    pub creation: int,
}

impl View for ZfsSnapshot {
    type V = SnapshotView;

    open spec fn view(&self) -> SnapshotView {
        SnapshotView { name: self.name@, creation: self.creation as int }
    }
}

impl DeepView for ZfsSnapshot {
    type V = SnapshotView;

    open spec fn deep_view(&self) -> SnapshotView {
        self@
    }
}

impl ZfsSnapshot {
    /// A copy of this snapshot.
    pub fn duplicate(&self) -> (copy: ZfsSnapshot)
        ensures
            copy@ == self@,
    {
        ZfsSnapshot { name: self.name.clone(), creation: self.creation }
    }

    /// The snapshot as a line of a report.
    pub fn to_string(&self) -> (s: String)
        ensures
            s@ == "ZfsSnapshot "@ + self@.name,
    {
        crate::text::joined("ZfsSnapshot ", self.name.as_str())
    }
}

/// A pool and its snapshots, oldest first.
#[derive(Clone, Eq, PartialEq, Debug)]
pub struct ZfsPool {
    pub name: String,
    pub snapshots: Vec<ZfsSnapshot>,
}

/// A `ZfsPool` as plain values.
pub struct PoolView {
    pub name: Seq<char>,
    pub snapshots: Seq<SnapshotView>,
}

impl View for ZfsPool {
    type V = PoolView;

    open spec fn view(&self) -> PoolView {
        PoolView { name: self.name@, snapshots: self.snapshots.deep_view() }
    }
}

impl DeepView for ZfsPool {
    type V = PoolView;

    open spec fn deep_view(&self) -> PoolView {
        self@
    }
}

/// Whether no two of `pools` have the same name.
pub open spec fn names_distinct(pools: Seq<PoolView>) -> bool {
    forall|i: int, j: int|
        0 <= i < j < pools.len() ==> (#[trigger] pools[i]).name != (#[trigger] pools[j]).name
}

/// Whether `pools` holds a pool of the name `name`.
pub open spec fn has_pool(pools: Seq<PoolView>, name: Seq<char>) -> bool {
    exists|i: int| 0 <= i < pools.len() && (#[trigger] pools[i]).name == name
}

/// `pools` with `pool` in it: in the place of the pool of that name where
/// there is one, else at the end.
pub open spec fn with_pool(pools: Seq<PoolView>, pool: PoolView) -> Seq<PoolView> {
    if has_pool(pools, pool.name) {
        let i = choose|i: int| 0 <= i < pools.len() && (#[trigger] pools[i]).name == pool.name;
        pools.update(i, pool)
    } else {
        pools.push(pool)
    }
}

/// The inventory of a machine: its pools, each under its own name, with the
/// snapshots of each.
#[derive(Clone, Eq, PartialEq, Debug)]
pub struct LocalZfsState {
    pools: Vec<ZfsPool>,
}

impl View for LocalZfsState {
    type V = Seq<PoolView>;

    closed spec fn view(&self) -> Seq<PoolView> {
        self.pools.deep_view()
    }
}

impl LocalZfsState {
    /// No two pools have the same name.
    pub open spec fn wf(&self) -> bool {
        names_distinct(self@)
    }

    /// An inventory without pools.
    pub fn new() -> (state: LocalZfsState)
        ensures
            state.wf(),
            state@ == Seq::<PoolView>::empty(),
    {
        let state = LocalZfsState { pools: Vec::new() };
        assert(state@ =~= Seq::<PoolView>::empty());
        state
    }

    /// The pools, in the order in which their names came in.
    pub fn pools(&self) -> (pools: &Vec<ZfsPool>)
        ensures
            pools.deep_view() == self@,
    {
        &self.pools
    }

    /// Puts the pool `name` with its snapshots into the inventory. A pool
    /// that was there under that name is replaced.
    pub fn insert(&mut self, name: String, snapshots: Vec<ZfsSnapshot>)
        requires
            old(self).wf(),
        ensures
            final(self).wf(),
            final(self)@ == with_pool(
                old(self)@,
                PoolView { name: name@, snapshots: snapshots.deep_view() },
            ),
    {
        let ghost before = self@;
        let ghost pool = PoolView { name: name@, snapshots: snapshots.deep_view() };
        let mut i: usize = 0;
        while i < self.pools.len()
            invariant
                i <= self.pools.len(),
                self@ == before,
                before == old(self)@,
                names_distinct(before),
                pool == (PoolView { name: name@, snapshots: snapshots.deep_view() }),
                forall|k: int| 0 <= k < i ==> (#[trigger] before[k]).name != name@,
            decreases self.pools.len() - i,
        {
            if self.pools[i].name == name {
                assert(before[i as int].name == name@);
                proof {
                    let chosen = choose|k: int|
                        0 <= k < before.len() && (#[trigger] before[k]).name == pool.name;
                    assert(chosen == i);
                }
                self.pools.set(i, ZfsPool { name, snapshots });
                assert(self@ =~= before.update(i as int, pool));
                return ;
            }
            i += 1;
        }
        self.pools.push(ZfsPool { name, snapshots });
        assert(self@ =~= before.push(pool));
    }
}

/// What a line of the snapshot listing says: the name, a tab, and the second
/// of creation; what follows a second tab is not read.
pub open spec fn snapshot_of_line(line: Seq<char>) -> Option<SnapshotView> {
    let fields = split_seq(line, '\t');
    if fields.len() < 2 {
        None
    } else {
        match parse_i64_seq(fields[1]) {
            Some(creation) => Some(SnapshotView { name: fields[0], creation: creation as int }),
            None => None,
        }
    }
}

/// Reads one line of the snapshot listing.
pub fn parse_snapshot(line: &str) -> (snapshot: Option<ZfsSnapshot>)
    ensures
        snapshot.deep_view() == snapshot_of_line(line@),
{
    let fields = split(line, '\t');
    if fields.len() < 2 {
        return None;
    }
    assert(fields.deep_view()[0] == fields@[0]@);
    assert(fields.deep_view()[1] == fields@[1]@);
    match parse_i64(fields[1].as_str()) {
        Some(creation) => Some(ZfsSnapshot { name: fields[0].clone(), creation }),
        None => None,
    }
}

/// Whether every line is a line of a snapshot listing.
pub open spec fn lines_are_snapshots(lines: Seq<Seq<char>>) -> bool {
    forall|i: int| 0 <= i < lines.len() ==> snapshot_of_line(#[trigger] lines[i]) is Some
}

/// The snapshots that the lines of a listing name, in the order of the
/// lines.
pub open spec fn snapshots_of_lines(lines: Seq<Seq<char>>) -> Seq<SnapshotView> {
    Seq::new(lines.len(), |i: int| snapshot_of_line(lines[i])->0)
}

/// Reads a snapshot listing; `None` where a line of it is none.
pub fn parse_snapshots(lines: &Vec<String>) -> (snapshots: Option<Vec<ZfsSnapshot>>)
    ensures
        snapshots is Some == lines_are_snapshots(lines.deep_view()),
        snapshots matches Some(list) ==> list.deep_view() == snapshots_of_lines(
            lines.deep_view(),
        ),
{
    let mut list: Vec<ZfsSnapshot> = Vec::new();
    let mut i: usize = 0;
    while i < lines.len()
        invariant
            i <= lines.len(),
            list.len() == i,
            forall|k: int| 0 <= k < i ==> snapshot_of_line(#[trigger] lines.deep_view()[k]) is Some,
            forall|k: int|
                0 <= k < i ==> (#[trigger] list@[k])@ == snapshot_of_line(
                    lines.deep_view()[k],
                )->0,
        decreases lines.len() - i,
    {
        assert(lines.deep_view()[i as int] == lines@[i as int]@);
        match parse_snapshot(lines[i].as_str()) {
            Some(snapshot) => {
                list.push(snapshot);
            },
            None => {
                return None;
            },
        }
        i += 1;
    }
    assert(list.deep_view() =~= snapshots_of_lines(lines.deep_view()));
    Some(list)
}

/// Whether the snapshot `snapshot` is one of the pool `pool`: its name is the
/// pool's, an `@`, and a tag.
pub open spec fn belongs_to(snapshot: Seq<char>, pool: Seq<char>) -> bool {
    pool.push('@').is_prefix_of(snapshot)
}

/// Those of `snapshots` that are snapshots of `pool`, in their order.
pub open spec fn snapshots_of_pool(snapshots: Seq<SnapshotView>, pool: Seq<char>) -> Seq<
    SnapshotView,
> {
    snapshots.filter(|s: SnapshotView| belongs_to(s.name, pool))
}

/// Picks the snapshots of `pool` out of `snapshots`.
pub fn select_snapshots(snapshots: &Vec<ZfsSnapshot>, pool: &str) -> (own: Vec<ZfsSnapshot>)
    ensures
        own.deep_view() == snapshots_of_pool(snapshots.deep_view(), pool@),
{
    let mut prefix = String::from_str(pool);
    prefix.push('@');
    let ghost belongs = |s: SnapshotView| belongs_to(s.name, pool@);
    let mut own: Vec<ZfsSnapshot> = Vec::new();
    let mut i: usize = 0;
    while i < snapshots.len()
        invariant
            i <= snapshots.len(),
            prefix@ == pool@.push('@'),
            belongs == |s: SnapshotView| belongs_to(s.name, pool@),
            own.deep_view() == snapshots.deep_view().take(i as int).filter(belongs),
        decreases snapshots.len() - i,
    {
        let ghost seen = snapshots.deep_view().take(i as int);
        let ghost current = snapshots@[i as int]@;
        proof {
            assert(snapshots.deep_view().take(i + 1) =~= seen.push(current));
            seen.lemma_filter_push(current, belongs);
        }
        let ghost chosen = own.deep_view();
        if starts_with(snapshots[i].name.as_str(), prefix.as_str()) {
            own.push(snapshots[i].duplicate());
            assert(own.deep_view() =~= chosen.push(current));
        }
        i += 1;
    }
    assert(snapshots.deep_view().take(snapshots.len() as int) =~= snapshots.deep_view());
    own
}

/// The inventory of the pools named, in the order of the names, each with
/// its own snapshots out of `snapshots`.
pub open spec fn inventory_of(pools: Seq<Seq<char>>, snapshots: Seq<SnapshotView>) -> Seq<
    PoolView,
>
    decreases pools.len(),
{
    if pools.len() == 0 {
        Seq::empty()
    } else {
        with_pool(
            inventory_of(pools.drop_last(), snapshots),
            PoolView {
                name: pools.last(),
                snapshots: snapshots_of_pool(snapshots, pools.last()),
            },
        )
    }
}

/// Builds the inventory from the two listings of the volume manager: the
/// names of the pools, and the snapshots of all pools, oldest first, one to a
/// line. Each pool gets the snapshots whose names begin with its own name and
/// an `@`, in the order of the listing. `None` where a line of the snapshot
/// listing is none.
pub fn get_local_zfs_state(pools: Vec<String>, snapshot_lines: &Vec<String>) -> (state: Option<
    LocalZfsState,
>)
    ensures
        state is Some == lines_are_snapshots(snapshot_lines.deep_view()),
        state matches Some(inventory) ==> inventory.wf() && inventory@ == inventory_of(
            pools.deep_view(),
            snapshots_of_lines(snapshot_lines.deep_view()),
        ),
{
    let snapshots = match parse_snapshots(snapshot_lines) {
        Some(list) => list,
        None => {
            return None;
        },
    };
    let mut state = LocalZfsState::new();
    let mut i: usize = 0;
    while i < pools.len()
        invariant
            i <= pools.len(),
            state.wf(),
            state@ == inventory_of(pools.deep_view().take(i as int), snapshots.deep_view()),
        decreases pools.len() - i,
    {
        proof {
            assert(pools.deep_view().take(i + 1).drop_last() =~= pools.deep_view().take(i as int));
            assert(pools.deep_view().take(i + 1).last() == pools@[i as int]@);
        }
        let own = select_snapshots(&snapshots, pools[i].as_str());
        state.insert(pools[i].clone(), own);
        i += 1;
    }
    assert(pools.deep_view().take(pools.len() as int) =~= pools.deep_view());
    Some(state)
}

} // verus!
