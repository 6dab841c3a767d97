//! What a restore run does to a world: the files that a dedupe run has
//! replaced, and the other files of a walk.

use vstd::prelude::*;
use crate::dedupe::{restore_start, LinkStepView};
use crate::link_laws::{
    can_relink, lemma_replaced_by_new_file_keeps, lemma_restore_makes_own_copy, link_machine,
    replaced_by_new_file,
};
use crate::model::{
    lemma_reaches_after_round, lemma_reaches_itself, lemma_reaches_on, lemma_relay, reaches,
    relays, world_round, Store, World,
};
use crate::paths::{is_temp, lemma_temp_of_is_temp, temp_of};
use crate::pipeline::{ReplyView, ReportView, RequestView};
use crate::requests::FsRequestView;
use crate::restore::{
    counted, next_restorable, restorable, restore_ask, restore_begin, restore_count, restore_enter,
    restore_removing, restore_restoring, restore_resume, RestoreCoreView, RestorePhaseView,
    RestoreRunView, RestoreStepView,
};
use crate::scanner::WalkEntry;
use crate::state::StoreRequestView;
use crate::vault::{removal_start, shard_path_of, RemovalStepView};
use crate::vault_laws::{
    lemma_master_path_is_no_staging_name, lemma_removal_removes_master, removal_machine,
};

verus! {

/// The restore run as a protocol.
pub open spec fn restore_machine() -> spec_fn(RestoreRunView, ReplyView) -> RestoreStepView {
    |run: RestoreRunView, reply: ReplyView| restore_resume(run, reply)
}

/// The entry `i` of the walk is a file that a dedupe run has replaced:
/// the file is in the tree, the file index has its record, and the master
/// of the recorded digest is in the vault, under another path than the
/// file's.
pub open spec fn is_deduplicated(world: World, core: RestoreCoreView, i: int) -> bool {
    let path = core.entries[i].path@;
    &&& 0 <= i < core.entries.len() <= usize::MAX
    &&& restorable(core.entries[i])
    &&& !core.dry_run
    &&& core.summary.restored <= i
    &&& can_relink(world.tree, path)
    &&& world.store.files.contains_key(path)
    &&& world.tree.has(shard_path_of(core.root, world.store.files[path].hash@))
    &&& path != shard_path_of(core.root, world.store.files[path].hash@)
}

/// The count index after one of the files of `hash` has been restored: a
/// count above one is lowered by one, the count one is removed, and
/// anything else stays.
pub open spec fn counts_after_restore(
    counts: Map<crate::types::Hash, u64>,
    hash: crate::types::Hash,
) -> Map<crate::types::Hash, u64> {
    if !counts.contains_key(hash) || counts[hash] == 0 {
        counts
    } else if counts[hash] == 1 {
        counts.remove(hash)
    } else {
        counts.insert(hash, (counts[hash] - 1) as u64)
    }
}

/// The master of `hash` is to leave the vault: its count is one.
pub open spec fn is_last_reference(counts: Map<crate::types::Hash, u64>, hash: crate::types::Hash) -> bool {
    counts.contains_key(hash) && counts[hash] == 1
}

/// The world after the entry `i` has been restored. The file is a new
/// file with the bytes and the metadata it had; where it was the last
/// that the count knew of, the master has left the vault. The store has
/// forgotten the file's record and the mark of its old inode, and the
/// count is lowered. The user has been told.
pub open spec fn restored(world: World, core: RestoreCoreView, i: int) -> World {
    let path = core.entries[i].path@;
    let hash = world.store.files[path].hash;
    let vault = shard_path_of(core.root, hash@);
    let tree = replaced_by_new_file(world.tree, path, world.tree.inode(path).content);
    let last = is_last_reference(world.store.counts, hash);
    World {
        tree: if last {
            tree.without(vault)
        } else {
            tree
        },
        store: Store {
            files: world.store.files.remove(path),
            counts: counts_after_restore(world.store.counts, hash),
            vaulted: world.store.vaulted.remove(world.tree.names[path]),
        },
        told: if last {
            world.told.push(ReportView::Restored { path }).push(ReportView::Pruned)
        } else {
            world.told.push(ReportView::Restored { path })
        },
    }
}

proof fn lemma_restoring_is_relayed(core: RestoreCoreView)
    ensures
        relays(
            restore_machine(),
            link_machine(),
            |step: LinkStepView| restore_restoring(core, step),
        ),
{
}

proof fn lemma_removing_is_relayed(core: RestoreCoreView, hash: crate::types::Hash)
    requires
        core.hash == Some(hash),
    ensures
        relays(
            restore_machine(),
            removal_machine(),
            |step: RemovalStepView| restore_removing(core, hash, step),
        ),
{
}

/// The run enters the next entry in the same way whatever entry it was at
/// work on.
proof fn lemma_enter_forgets(one: RestoreCoreView, other: RestoreCoreView, from: int)
    requires
        one.root == other.root,
        one.entries == other.entries,
        one.dry_run == other.dry_run,
        one.stat == other.stat,
        one.summary == other.summary,
    ensures
        restore_enter(one, from) == restore_enter(other, from),
{
}

/// A restore run that comes to a file that a dedupe run has replaced
/// restores it and turns to the next entry.
pub proof fn lemma_file_is_restored(core: RestoreCoreView, i: int, world: World)
    requires
        is_deduplicated(world, core, i),
    ensures
        reaches(
            restore_machine(),
            restore_enter(core, i),
            world,
            restore_enter(
                RestoreCoreView {
                    stat: world.tree.stat(core.entries[i].path@),
                    summary: counted(core.summary, world.tree.stat(core.entries[i].path@).size),
                    ..core
                },
                i + 1,
            ),
            restored(world, core, i),
        ),
{
    let machine = restore_machine();
    let path = core.entries[i].path@;
    let stat = world.tree.stat(path);
    let record = world.store.files[path];
    let hash = record.hash;
    let vault = shard_path_of(core.root, hash@);
    let then = restored(world, core, i);
    let end = restore_enter(
        RestoreCoreView { stat, summary: counted(core.summary, stat.size), ..core },
        i + 1,
    );
    lemma_master_path_is_no_staging_name(core.root, hash@);
    lemma_temp_of_is_temp(path);
    assert(next_restorable(core.entries, i) == Some(i));
    // The questions before the restoration.
    let at = RestoreCoreView { at: i as usize, hash: None, ..core };
    let asking = restore_enter(core, i);
    let seen = RestoreCoreView { stat, ..at };
    let checking = restore_ask(
        seen,
        RestorePhaseView::CheckVaulted,
        RequestView::Store(StoreRequestView::IsInodeVaulted { inode: stat.inode }),
    );
    assert(world_round(machine, asking, world) == (checking, world));
    let known = RestoreCoreView { hash: Some(hash), ..seen };
    let beginning = restore_restoring(known, restore_start(path));
    assert(restore_begin(known) == beginning);
    if world.store.vaulted.contains(stat.inode) {
        let recalling = restore_ask(
            seen,
            RestorePhaseView::RecallHash,
            RequestView::Store(StoreRequestView::GetFileMetadata { path }),
        );
        assert(world_round(machine, checking, world) == (recalling, world));
        assert(world_round(machine, recalling, world) == (beginning, world));
        lemma_reaches_itself(machine, beginning, world);
        lemma_reaches_after_round(machine, recalling, world, beginning, world);
    } else {
        let looking = restore_ask(
            seen,
            RestorePhaseView::LookUp,
            RequestView::Store(StoreRequestView::GetFileMetadata { path }),
        );
        let probing = restore_ask(
            known,
            RestorePhaseView::ProbeVault,
            RequestView::Fs(FsRequestView::Exists { path: vault }),
        );
        assert(world_round(machine, checking, world) == (looking, world));
        assert(world_round(machine, looking, world) == (probing, world));
        assert(world_round(machine, probing, world) == (beginning, world));
        lemma_reaches_itself(machine, beginning, world);
        lemma_reaches_after_round(machine, probing, world, beginning, world);
        lemma_reaches_after_round(machine, looking, world, beginning, world);
    }
    lemma_reaches_after_round(machine, checking, world, beginning, world);
    lemma_reaches_after_round(machine, asking, world, beginning, world);
    // The restoration.
    let tree1 = replaced_by_new_file(world.tree, path, world.tree.inode(path).content);
    lemma_restore_makes_own_copy(world.tree, path);
    lemma_restoring_is_relayed(known);
    let wrap = |step: LinkStepView| restore_restoring(known, step);
    lemma_relay(machine, link_machine(), wrap, restore_start(path), world, Ok(None), tree1);
    let world1 = World { tree: tree1, ..world };
    let telling = restore_restoring(known, LinkStepView::Finish(Ok(None)));
    assert(wrap(restore_start(path)) == beginning);
    assert(wrap(LinkStepView::Finish(Ok(None))) == telling);
    lemma_reaches_on(machine, asking, world, beginning, world, telling, world1);
    // The store forgets the file.
    let world2 = World { told: world1.told.push(ReportView::Restored { path }), ..world1 };
    let unmarking = restore_ask(
        known,
        RestorePhaseView::Unmark,
        RequestView::Store(StoreRequestView::UnmarkInodeVaulted { inode: stat.inode }),
    );
    assert(world_round(machine, telling, world1) == (unmarking, world2));
    let world3 = World {
        store: Store { vaulted: world.store.vaulted.remove(stat.inode), ..world.store },
        ..world2
    };
    let unindexing = restore_ask(
        known,
        RestorePhaseView::Unindex,
        RequestView::Store(StoreRequestView::RemoveFileFromIndex { path }),
    );
    assert(world_round(machine, unmarking, world2) == (unindexing, world3));
    let world4 = World {
        store: Store { files: world.store.files.remove(path), ..world3.store },
        ..world3
    };
    let counting = restore_ask(
        known,
        RestorePhaseView::GetCount,
        RequestView::Store(StoreRequestView::GetCasRefcount { hash }),
    );
    assert(world_round(machine, unindexing, world3) == (counting, world4));
    // The count, and the master where the count was one.
    let counts = world.store.counts;
    lemma_enter_forgets(
        RestoreCoreView { summary: counted(known.summary, known.stat.size), ..known },
        RestoreCoreView { stat, summary: counted(core.summary, stat.size), ..core },
        i + 1,
    );
    assert(restore_count(known) == end);
    if !counts.contains_key(hash) || counts[hash] == 0 {
        assert(world4 == then);
        assert(world_round(machine, counting, world4) == (end, then));
        lemma_reaches_itself(machine, end, then);
    } else if counts[hash] == 1 {
        let removing = restore_removing(known, hash, removal_start(known.root, hash@));
        assert(world_round(machine, counting, world4) == (removing, world4));
        lemma_removal_removes_master(tree1, known.root, hash@);
        lemma_removing_is_relayed(known, hash);
        let wrap_removal = |step: RemovalStepView| restore_removing(known, hash, step);
        lemma_relay(
            machine,
            removal_machine(),
            wrap_removal,
            removal_start(known.root, hash@),
            world4,
            Ok(()),
            tree1.without(vault),
        );
        let world5 = World { tree: tree1.without(vault), ..world4 };
        let uncounting = restore_removing(known, hash, RemovalStepView::Finish(Ok(())));
        assert(wrap_removal(removal_start(known.root, hash@)) == removing);
        assert(wrap_removal(RemovalStepView::Finish(Ok(()))) == uncounting);
        let world6 = World {
            store: Store { counts: counts.remove(hash), ..world5.store },
            ..world5
        };
        let pruned = restore_ask(
            known,
            RestorePhaseView::AfterPruned,
            RequestView::Tell(ReportView::Pruned),
        );
        assert(world_round(machine, uncounting, world5) == (pruned, world6));
        let world7 = World { told: world6.told.push(ReportView::Pruned), ..world6 };
        assert(world7 == then);
        assert(world_round(machine, pruned, world6) == (end, then));
        lemma_reaches_itself(machine, end, then);
        lemma_reaches_after_round(machine, pruned, world6, end, then);
        lemma_reaches_after_round(machine, uncounting, world5, end, then);
        lemma_reaches_on(machine, removing, world4, uncounting, world5, end, then);
    } else {
        let lowering = restore_ask(
            known,
            RestorePhaseView::SetCount,
            RequestView::Store(
                StoreRequestView::SetCasRefcount { hash, count: (counts[hash] - 1) as u64 },
            ),
        );
        assert(world_round(machine, counting, world4) == (lowering, world4));
        let world5 = World {
            store: Store {
                counts: counts.insert(hash, (counts[hash] - 1) as u64),
                ..world4.store
            },
            ..world4
        };
        assert(world5 == then);
        assert(world_round(machine, lowering, world4) == (end, then));
        lemma_reaches_itself(machine, end, then);
        lemma_reaches_after_round(machine, lowering, world4, end, then);
    }
    lemma_reaches_after_round(machine, counting, world4, end, then);
    lemma_reaches_after_round(machine, unindexing, world3, end, then);
    lemma_reaches_after_round(machine, unmarking, world2, end, then);
    lemma_reaches_after_round(machine, telling, world1, end, then);
    lemma_reaches_on(machine, asking, world, telling, world1, end, then);
}

/// A restored file is byte for byte what it was, with the permission
/// bits, modification time and attributes it had, and it is independent:
/// its inode is one that no file had before, so it is shared neither with
/// the master nor with another file. No other file of the tree has
/// changed, but that the master has left the vault with its last
/// reference.
pub proof fn lemma_restored_file_is_own_and_equal(core: RestoreCoreView, i: int, world: World)
    requires
        is_deduplicated(world, core, i),
    ensures
        ({
            let path = core.entries[i].path@;
            let after = restored(world, core, i).tree;
            let vault = shard_path_of(core.root, world.store.files[path].hash@);
            &&& after.has(path)
            &&& after.inode(path) == world.tree.inode(path)
            &&& !world.tree.inodes.contains_key(after.names[path])
            &&& after.has(vault) == !is_last_reference(
                world.store.counts,
                world.store.files[path].hash,
            )
            &&& forall|other: Seq<char>|
                world.tree.has(other) && other != path && other != vault && !is_temp(other)
                    ==> after.has(other) && #[trigger] after.inode(other) == world.tree.inode(
                    other,
                )
        }),
{
    let path = core.entries[i].path@;
    let vault = shard_path_of(core.root, world.store.files[path].hash@);
    lemma_master_path_is_no_staging_name(core.root, world.store.files[path].hash@);
    lemma_temp_of_is_temp(path);
    lemma_replaced_by_new_file_keeps(world.tree, path, world.tree.inode(path).content);
    let tree1 = replaced_by_new_file(world.tree, path, world.tree.inode(path).content);
    assert(tree1.has(vault));
    assert forall|other: Seq<char>|
        world.tree.has(other) && other != path && other != vault && !is_temp(
            other,
        ) implies restored(world, core, i).tree.has(other) && #[trigger] restored(
        world,
        core,
        i,
    ).tree.inode(other) == world.tree.inode(other) by {
        assert(other != temp_of(path));
        assert(tree1.inode(other) == world.tree.inode(other));
    }
}

/// The run after the entry `i` has been restored: it has seen the file's
/// metadata and counted the file.
pub open spec fn after_file(world: World, core: RestoreCoreView, i: int) -> RestoreCoreView {
    RestoreCoreView {
        stat: world.tree.stat(core.entries[i].path@),
        summary: counted(core.summary, world.tree.stat(core.entries[i].path@).size),
        ..core
    }
}

/// The run after the entry `i` has been passed over: it has seen the
/// file's metadata, where the file is there.
pub open spec fn after_pass(world: World, core: RestoreCoreView, i: int) -> RestoreCoreView {
    if world.tree.has(core.entries[i].path@) {
        RestoreCoreView { stat: world.tree.stat(core.entries[i].path@), ..core }
    } else {
        core
    }
}

/// The entry is a file of which the file index has a record.
pub open spec fn has_record(world: World, entry: WalkEntry) -> bool {
    restorable(entry) && world.store.files.contains_key(entry.path@)
}

/// The number of entries from `from` on of which the file index has a
/// record.
pub open spec fn records_left(world: World, entries: Seq<WalkEntry>, from: int) -> nat
    decreases entries.len() - from,
{
    if from < 0 || from >= entries.len() {
        0
    } else if has_record(world, entries[from]) {
        records_left(world, entries, from + 1) + 1
    } else {
        records_left(world, entries, from + 1)
    }
}

/// The walk, from the entry `from` on, is one over the files of a group
/// that a dedupe run has deduplicated and over other files. Every file of
/// which the file index has a record is in the tree and is one of those
/// that share the master of `hash`; of the other files the store knows
/// nothing. No file comes twice, and the count of `hash` is the number of
/// the group's files in the walk.
pub open spec fn is_walk_over_group(
    world: World,
    core: RestoreCoreView,
    hash: crate::types::Hash,
    from: int,
) -> bool {
    let vault = shard_path_of(core.root, hash@);
    let left = records_left(world, core.entries, from);
    &&& 0 <= from <= core.entries.len() <= usize::MAX
    &&& !core.dry_run
    &&& core.summary.restored <= from
    &&& world.tree.well_formed()
    &&& world.tree.next + (core.entries.len() - from) < u64::MAX
    &&& left > 0 ==> world.tree.has(vault) && world.store.counts.contains_key(hash)
        && world.store.counts[hash] == left
    &&& forall|i: int|
        from <= i < core.entries.len() && restorable(#[trigger] core.entries[i]) ==> {
            let path = core.entries[i].path@;
            &&& path != vault
            &&& world.store.files.contains_key(path) ==> world.tree.has(path)
                && world.tree.inode(path).xattrs.len() <= usize::MAX
                && world.store.files[path].hash == hash
            &&& !world.store.files.contains_key(path) && world.tree.has(path)
                ==> !world.store.vaulted.contains(world.tree.names[path])
        }
    &&& forall|i: int, j: int|
        from <= i < j < core.entries.len() && restorable(#[trigger] core.entries[i])
            && restorable(#[trigger] core.entries[j]) ==> core.entries[i].path@
            != core.entries[j].path@
}

/// The world, and the run, after the entries from `from` on have been
/// gone through, one after the other: the files of which the file index
/// has a record are restored, the others passed over.
pub open spec fn after_files(world: World, core: RestoreCoreView, from: int) -> (World, RestoreCoreView)
    decreases core.entries.len() - from,
{
    if from < 0 || from >= core.entries.len() {
        (world, core)
    } else if has_record(world, core.entries[from]) {
        after_files(restored(world, core, from), after_file(world, core, from), from + 1)
    } else if restorable(core.entries[from]) {
        after_files(world, after_pass(world, core, from), from + 1)
    } else {
        after_files(world, core, from + 1)
    }
}

/// A restore run passes over a file of which the store knows nothing: it
/// asks, changes nothing, and turns to the next entry.
pub proof fn lemma_unknown_file_is_passed_over(core: RestoreCoreView, i: int, world: World)
    requires
        0 <= i < core.entries.len() <= usize::MAX,
        restorable(core.entries[i]),
        !world.store.files.contains_key(core.entries[i].path@),
        world.tree.has(core.entries[i].path@) ==> !world.store.vaulted.contains(
            world.tree.names[core.entries[i].path@],
        ),
    ensures
        reaches(
            restore_machine(),
            restore_enter(core, i),
            world,
            restore_enter(after_pass(world, core, i), i + 1),
            world,
        ),
{
    let machine = restore_machine();
    let path = core.entries[i].path@;
    let end = restore_enter(after_pass(world, core, i), i + 1);
    assert(next_restorable(core.entries, i) == Some(i));
    let at = RestoreCoreView { at: i as usize, hash: None, ..core };
    let asking = restore_enter(core, i);
    lemma_reaches_itself(machine, end, world);
    if world.tree.has(path) {
        let stat = world.tree.stat(path);
        let seen = RestoreCoreView { stat, ..at };
        let checking = restore_ask(
            seen,
            RestorePhaseView::CheckVaulted,
            RequestView::Store(StoreRequestView::IsInodeVaulted { inode: stat.inode }),
        );
        let looking = restore_ask(
            seen,
            RestorePhaseView::LookUp,
            RequestView::Store(StoreRequestView::GetFileMetadata { path }),
        );
        lemma_enter_forgets(seen, after_pass(world, core, i), i + 1);
        assert(world_round(machine, asking, world) == (checking, world));
        assert(world_round(machine, checking, world) == (looking, world));
        assert(world_round(machine, looking, world) == (end, world));
        lemma_reaches_after_round(machine, looking, world, end, world);
        lemma_reaches_after_round(machine, checking, world, end, world);
    } else {
        lemma_enter_forgets(at, core, i + 1);
        assert(world_round(machine, asking, world) == (end, world));
    }
    lemma_reaches_after_round(machine, asking, world, end, world);
}

/// Restoring or passing over the entry `from` leaves the records of the
/// later entries as they are.
proof fn lemma_records_left_after(world: World, next: World, entries: Seq<WalkEntry>, from: int)
    requires
        0 <= from,
        forall|i: int|
            from <= i < entries.len() && restorable(#[trigger] entries[i])
                ==> next.store.files.contains_key(entries[i].path@)
                == world.store.files.contains_key(entries[i].path@),
    ensures
        records_left(next, entries, from) == records_left(world, entries, from),
    decreases entries.len() - from,
{
    if from < entries.len() {
        assert(has_record(next, entries[from]) == has_record(world, entries[from]));
        lemma_records_left_after(world, next, entries, from + 1);
    }
}

proof fn lemma_walk_goes_on(world: World, core: RestoreCoreView, hash: crate::types::Hash, from: int)
    requires
        is_walk_over_group(world, core, hash, from),
        from < core.entries.len(),
    ensures
        has_record(world, core.entries[from]) ==> is_deduplicated(world, core, from)
            && world.store.files[core.entries[from].path@].hash == hash && (is_last_reference(
            world.store.counts,
            hash,
        ) <==> records_left(world, core.entries, from + 1) == 0),
        has_record(world, core.entries[from]) ==> records_left(
            restored(world, core, from),
            core.entries,
            from + 1,
        ) == records_left(world, core.entries, from + 1),
        is_walk_over_group(
            if has_record(world, core.entries[from]) {
                restored(world, core, from)
            } else {
                world
            },
            if has_record(world, core.entries[from]) {
                after_file(world, core, from)
            } else if restorable(core.entries[from]) {
                after_pass(world, core, from)
            } else {
                core
            },
            hash,
            from + 1,
        ),
{
    let entry = core.entries[from];
    let path = entry.path@;
    let vault = shard_path_of(core.root, hash@);
    if has_record(world, entry) {
        let next = restored(world, core, from);
        let then = after_file(world, core, from);
        assert(restorable(core.entries[from]));
        lemma_master_path_is_no_staging_name(core.root, hash@);
        lemma_temp_of_is_temp(path);
        let tree1 = replaced_by_new_file(world.tree, path, world.tree.inode(path).content);
        assert(world.tree.inodes.contains_key(world.tree.names[path]));
        assert(tree1.well_formed()) by {
            assert forall|other: Seq<char>| #[trigger] tree1.names.contains_key(other) implies tree1.inodes.contains_key(
                tree1.names[other],
            ) by {
                if other != path {
                    assert(world.tree.names.contains_key(other));
                }
            }
        }
        assert(next.tree.well_formed());
        assert forall|i: int|
            from + 1 <= i < core.entries.len() && restorable(
                #[trigger] core.entries[i],
            ) implies next.store.files.contains_key(core.entries[i].path@)
            == world.store.files.contains_key(core.entries[i].path@) by {
            assert(core.entries[from].path@ != core.entries[i].path@);
        }
        lemma_records_left_after(world, next, core.entries, from + 1);
        assert forall|i: int|
            from + 1 <= i < then.entries.len() && restorable(#[trigger] then.entries[i]) implies {
            let other = then.entries[i].path@;
            &&& other != vault
            &&& next.store.files.contains_key(other) ==> next.tree.has(other) && next.tree.inode(
                other,
            ).xattrs.len() <= usize::MAX && next.store.files[other].hash == hash
            &&& !next.store.files.contains_key(other) && next.tree.has(other)
                ==> !next.store.vaulted.contains(next.tree.names[other])
        } by {
            let other = core.entries[i].path@;
            assert(core.entries[from].path@ != core.entries[i].path@);
            assert(other != temp_of(path));
            if world.tree.has(other) {
                assert(world.tree.inodes.contains_key(world.tree.names[other]));
                assert(tree1.has(other));
                assert(tree1.names[other] == world.tree.names[other]);
                assert(tree1.inode(other) == world.tree.inode(other));
            } else {
                assert(!tree1.has(other));
            }
        }
    } else {
        lemma_records_left_after(world, world, core.entries, from + 1);
    }
}

/// A restore run over the files of a deduplicated group and over other
/// files restores the files of the group, passes the others over, and
/// ends with its summary.
pub proof fn lemma_group_is_restored(
    world: World,
    core: RestoreCoreView,
    hash: crate::types::Hash,
    from: int,
)
    requires
        is_walk_over_group(world, core, hash, from),
    ensures
        reaches(
            restore_machine(),
            restore_enter(core, from),
            world,
            RestoreStepView::Finish(after_files(world, core, from).1.summary),
            after_files(world, core, from).0,
        ),
    decreases core.entries.len() - from,
{
    let machine = restore_machine();
    let end = RestoreStepView::Finish(after_files(world, core, from).1.summary);
    let then = after_files(world, core, from).0;
    if from < core.entries.len() {
        lemma_walk_goes_on(world, core, hash, from);
        if has_record(world, core.entries[from]) {
            let next = restored(world, core, from);
            let on = after_file(world, core, from);
            lemma_file_is_restored(core, from, world);
            lemma_group_is_restored(next, on, hash, from + 1);
            lemma_reaches_on(
                machine,
                restore_enter(core, from),
                world,
                restore_enter(on, from + 1),
                next,
                end,
                then,
            );
        } else if restorable(core.entries[from]) {
            let on = after_pass(world, core, from);
            lemma_unknown_file_is_passed_over(core, from, world);
            lemma_group_is_restored(world, on, hash, from + 1);
            lemma_reaches_on(
                machine,
                restore_enter(core, from),
                world,
                restore_enter(on, from + 1),
                world,
                end,
                then,
            );
        } else {
            assert(restore_enter(core, from) == restore_enter(core, from + 1));
            lemma_group_is_restored(world, core, hash, from + 1);
        }
    } else {
        assert(next_restorable(core.entries, from).is_none());
        lemma_reaches_itself(machine, RestoreStepView::Finish(core.summary), world);
    }
}

/// A file that is not restored in the rest of the walk, and is neither
/// the master nor a staging name, stays as it is while the rest is gone
/// through, and the store's record of it, or want of one, stays too.
pub proof fn lemma_restore_leaves_other_files(
    world: World,
    core: RestoreCoreView,
    hash: crate::types::Hash,
    from: int,
    path: Seq<char>,
)
    requires
        is_walk_over_group(world, core, hash, from),
        world.tree.has(path),
        !is_temp(path),
        path != shard_path_of(core.root, hash@),
        forall|i: int|
            from <= i < core.entries.len() && has_record(world, #[trigger] core.entries[i])
                ==> core.entries[i].path@ != path,
    ensures
        after_files(world, core, from).0.tree.has(path),
        after_files(world, core, from).0.tree.names[path] == world.tree.names[path],
        after_files(world, core, from).0.tree.inode(path) == world.tree.inode(path),
        after_files(world, core, from).0.store.files.contains_key(path)
            == world.store.files.contains_key(path),
    decreases core.entries.len() - from,
{
    if from < core.entries.len() {
        lemma_walk_goes_on(world, core, hash, from);
        if has_record(world, core.entries[from]) {
            let next = restored(world, core, from);
            let then = after_file(world, core, from);
            lemma_restored_file_is_own_and_equal(core, from, world);
            assert(core.entries[from].path@ != path);
            assert(next.tree.inode(path) == world.tree.inode(path));
            assert(next.tree.has(path));
            lemma_temp_of_is_temp(core.entries[from].path@);
            assert(next.tree.names[path] == world.tree.names[path]);
            assert forall|i: int|
                from + 1 <= i < then.entries.len() && has_record(
                    next,
                    #[trigger] then.entries[i],
                ) implies then.entries[i].path@ != path by {
                assert(core.entries[from].path@ != core.entries[i].path@);
                assert(has_record(world, core.entries[i]));
            }
            lemma_restore_leaves_other_files(next, then, hash, from + 1, path);
        } else if restorable(core.entries[from]) {
            lemma_restore_leaves_other_files(
                world,
                after_pass(world, core, from),
                hash,
                from + 1,
                path,
            );
        } else {
            lemma_restore_leaves_other_files(world, core, hash, from + 1, path);
        }
    }
}

/// After dedupe and restore nothing is left of the deduplication: when
/// the walk has been gone through, the master has left the vault and the
/// group's count is gone, the store has no record of the group's files,
/// and every one of them has the bytes and the metadata it had, in an
/// inode of its own that no file had before.
pub proof fn lemma_restored_group_leaves_nothing(
    world: World,
    core: RestoreCoreView,
    hash: crate::types::Hash,
    from: int,
    i: int,
)
    requires
        is_walk_over_group(world, core, hash, from),
        from <= i < core.entries.len(),
        has_record(world, core.entries[i]),
    ensures
        ({
            let after = after_files(world, core, from).0;
            let path = core.entries[i].path@;
            &&& !after.tree.has(shard_path_of(core.root, hash@))
            &&& !after.store.counts.contains_key(hash)
            &&& !after.store.files.contains_key(path)
            &&& after.tree.has(path)
            &&& after.tree.inode(path) == world.tree.inode(path)
            &&& !world.tree.inodes.contains_key(after.tree.names[path])
        }),
    decreases core.entries.len() - from,
{
    let vault = shard_path_of(core.root, hash@);
    let path = core.entries[i].path@;
    lemma_walk_goes_on(world, core, hash, from);
    lemma_master_path_is_no_staging_name(core.root, hash@);
    assert(restorable(core.entries[i]));
    if has_record(world, core.entries[from]) {
        let next = restored(world, core, from);
        let then = after_file(world, core, from);
        let first = core.entries[from].path@;
        lemma_restored_file_is_own_and_equal(core, from, world);
        assert(restorable(core.entries[from]));
        lemma_nothing_left_after_last(next, then, hash, from + 1);
        if i == from {
            assert forall|k: int|
                from + 1 <= k < then.entries.len() && has_record(
                    next,
                    #[trigger] then.entries[k],
                ) implies then.entries[k].path@ != first by {
                assert(core.entries[from].path@ != core.entries[k].path@);
            }
            lemma_restore_leaves_other_files(next, then, hash, from + 1, first);
        } else {
            assert(core.entries[from].path@ != core.entries[i].path@);
            assert(has_record(next, then.entries[i]));
            lemma_restored_group_leaves_nothing(next, then, hash, from + 1, i);
            assert(next.tree.inode(path) == world.tree.inode(path));
            assert(forall|number: u64|
                world.tree.inodes.contains_key(number) ==> #[trigger] next.tree.inodes.contains_key(
                    number,
                ));
        }
    } else {
        assert(i != from);
        let then = if restorable(core.entries[from]) {
            after_pass(world, core, from)
        } else {
            core
        };
        lemma_restored_group_leaves_nothing(world, then, hash, from + 1, i);
    }
}

/// Once no record is left in the walk, the master and the count are gone
/// and stay gone.
proof fn lemma_nothing_left_after_last(
    world: World,
    core: RestoreCoreView,
    hash: crate::types::Hash,
    from: int,
)
    requires
        is_walk_over_group(world, core, hash, from),
        records_left(world, core.entries, from) == 0 ==> !world.tree.has(
            shard_path_of(core.root, hash@),
        ) && !world.store.counts.contains_key(hash),
    ensures
        !after_files(world, core, from).0.tree.has(shard_path_of(core.root, hash@)),
        !after_files(world, core, from).0.store.counts.contains_key(hash),
    decreases core.entries.len() - from,
{
    if from < core.entries.len() {
        lemma_walk_goes_on(world, core, hash, from);
        if has_record(world, core.entries[from]) {
            let next = restored(world, core, from);
            let then = after_file(world, core, from);
            lemma_master_path_is_no_staging_name(core.root, hash@);
            assert(records_left(world, core.entries, from) > 0);
            lemma_nothing_left_after_last(next, then, hash, from + 1);
        } else if restorable(core.entries[from]) {
            lemma_nothing_left_after_last(world, after_pass(world, core, from), hash, from + 1);
        } else {
            lemma_nothing_left_after_last(world, core, hash, from + 1);
        }
    }
}

} // verus!
