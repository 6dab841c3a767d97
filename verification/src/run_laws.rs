//! What a dedupe run does to a world: groups of duplicates on a file
//! system that makes clones, and on one that makes none.

use vstd::prelude::*;
use crate::dedupe::{
    compare_start, replace_start, CompareStepView, LinkError, LinkStepView, LinkType,
};
use crate::hash_laws::{compare_machine, lemma_compare_decides_equality};
use crate::link_laws::{
    can_record, can_relink, cloned_at_vacant_path, lemma_replace_clones_at_vacant_path,
    lemma_replace_is_refused_at_vacant_path, lemma_replace_makes_clone, link_machine,
    replaced_by_new_file,
};
use crate::model::{
    lemma_reaches_after_round, lemma_reaches_itself, lemma_reaches_on, lemma_relay, reaches,
    relays, world_round, Inode, Store, Tree, World,
};
use crate::orchestrator::{
    dedupe_ask, dedupe_compared, dedupe_enter, dedupe_start, DedupeOptions, dedupe_ingest, dedupe_linked, dedupe_member, dedupe_next_member,
    dedupe_resume, dedupe_told, group_at_work, next_duplicates, DedupeCoreView, DedupePhaseView,
    DedupeRunView, DedupeStepView,
};
use crate::paths::{is_temp, lemma_temp_of_is_temp, temp_of};
use crate::pipeline::{GroupView, ReplyView, ReportView, RequestView};
use crate::vault::{ingest_start, shard_path_of, IngestStepView};
use crate::vault_laws::{
    ingest_machine, lemma_ingest_keeps_master, lemma_ingest_moves_file,
    lemma_master_path_is_no_staging_name, taken_in,
};

verus! {

/// The dedupe run as a protocol.
pub open spec fn dedupe_machine() -> spec_fn(DedupeRunView, ReplyView) -> DedupeStepView {
    |run: DedupeRunView, reply: ReplyView| dedupe_resume(run, reply)
}

/// The files `paths` are in `tree`, differ from each other and from the
/// master's path `vault`, and have no staging names.
pub open spec fn are_files_of(tree: Tree, vault: Seq<char>, paths: Seq<Seq<char>>) -> bool {
    &&& forall|i: int|
        0 <= i < paths.len() ==> tree.has(#[trigger] paths[i]) && !is_temp(paths[i]) && paths[i]
            != vault && tree.inode(paths[i]).xattrs.len() <= usize::MAX
    &&& forall|i: int, j: int| 0 <= i < j < paths.len() ==> paths[i] != paths[j]
}

/// The tree after the files of `paths` from index `from` on have been
/// replaced, one after the other, by new files with the master's bytes.
pub open spec fn members_replaced(tree: Tree, vault: Seq<char>, paths: Seq<Seq<char>>, from: int) -> Tree
    decreases paths.len() - from,
{
    if from < 0 || from >= paths.len() {
        tree
    } else {
        members_replaced(
            replaced_by_new_file(tree, paths[from], tree.inode(vault).content),
            vault,
            paths,
            from + 1,
        )
    }
}

/// The tree after a group has been deduplicated: the first file has been
/// moved to the master's path, a clone of the master made at its old
/// path, and every other file replaced by a clone of the master.
pub open spec fn group_deduplicated(tree: Tree, vault: Seq<char>, paths: Seq<Seq<char>>) -> Tree {
    members_replaced(
        cloned_at_vacant_path(taken_in(tree, paths[0], vault), vault, paths[0]),
        vault,
        paths,
        1,
    )
}

/// The lines that tell of the files of a group as replaced by clones. In
/// a paranoid run every file but the first is told as verified: the first
/// is the master itself, and has nothing to be compared with.
pub open spec fn cloned_lines(paths: Seq<Seq<char>>, paranoid: bool) -> Seq<ReportView> {
    Seq::new(
        paths.len(),
        |i: int|
            ReportView::Linked {
                kind: LinkType::Reflink,
                verified: paranoid && i > 0,
                path: paths[i],
            },
    )
}

/// The files of `paths` from index `from` on have the bytes of the master
/// at `vault`, and the master is short enough to be read through.
pub open spec fn equal_the_master(tree: Tree, vault: Seq<char>, paths: Seq<Seq<char>>, from: int) -> bool {
    &&& tree.inode(vault).content.len() <= u64::MAX
    &&& forall|j: int|
        from <= j < paths.len() ==> tree.inode(#[trigger] paths[j]).content == tree.inode(
            vault,
        ).content
}

/// The run is at work on a group, whose master lives at `vault` and whose
/// files are `paths`, and it is no dry run.
pub(crate) open spec fn at_work(core: DedupeCoreView, vault: Seq<char>, paths: Seq<Seq<char>>) -> bool {
    &&& !core.options.dry_run
    &&& core.group < core.groups.len()
    &&& group_at_work(core).paths == paths
    &&& 2 <= paths.len() <= usize::MAX
    &&& core.vault_path == vault
    &&& !is_temp(vault)
}

/// The tree is fit for the replacement of the files from index `from` on.
spec fn fit_for(tree: Tree, vault: Seq<char>, paths: Seq<Seq<char>>, from: int) -> bool {
    &&& tree.well_formed()
    &&& tree.cow
    &&& tree.has(vault)
    &&& tree.next + (paths.len() - from) < u64::MAX
    &&& are_files_of(tree, vault, paths.subrange(from, paths.len() as int))
}

proof fn lemma_fit_for_next(tree: Tree, vault: Seq<char>, paths: Seq<Seq<char>>, from: int)
    requires
        0 <= from < paths.len(),
        fit_for(tree, vault, paths, from),
        !is_temp(vault),
    ensures
        fit_for(
            replaced_by_new_file(tree, paths[from], tree.inode(vault).content),
            vault,
            paths,
            from + 1,
        ),
        can_relink(tree, paths[from]),
        !is_temp(paths[from]),
        tree.has(paths[from]),
        vault != paths[from],
        vault != temp_of(paths[from]),
        equal_the_master(tree, vault, paths, from) ==> equal_the_master(
            replaced_by_new_file(tree, paths[from], tree.inode(vault).content),
            vault,
            paths,
            from + 1,
        ),
{
    let target = paths[from];
    let after = replaced_by_new_file(tree, target, tree.inode(vault).content);
    let rest = paths.subrange(from, paths.len() as int);
    let later = paths.subrange(from + 1, paths.len() as int);
    lemma_temp_of_is_temp(target);
    assert(rest[0] == target);
    assert forall|i: int| 0 <= i < later.len() implies after.has(#[trigger] later[i]) && !is_temp(
        later[i],
    ) && later[i] != vault && after.inode(later[i]).xattrs.len() <= usize::MAX by {
        assert(later[i] == rest[i + 1]);
        assert(rest[i + 1] != rest[0]);
        assert(tree.inodes.contains_key(tree.names[later[i]]));
    }
    assert forall|i: int, j: int| 0 <= i < j < later.len() implies later[i] != later[j] by {
        assert(later[i] == rest[i + 1] && later[j] == rest[j + 1]);
    }
    assert(after.well_formed()) by {
        assert(tree.inodes.contains_key(tree.names[target]));
        assert forall|path: Seq<char>| #[trigger] after.names.contains_key(path) implies after.inodes.contains_key(
            after.names[path],
        ) by {
            if path != target {
                assert(tree.names.contains_key(path));
            }
        }
    }
    assert(tree.inodes.contains_key(tree.names[vault]));
    assert(after.inode(vault) == tree.inode(vault));
    assert forall|j: int| from < j < paths.len() implies after.inode(#[trigger] paths[j])
        == tree.inode(paths[j]) by {
        assert(rest[j - from] == paths[j]);
        assert(tree.has(paths[j]));
        assert(paths[j] != target);
        assert(tree.inodes.contains_key(tree.names[paths[j]]));
    }
}

/// The run enters the next group in the same way whatever file it was at
/// work on.
pub(crate) proof fn lemma_enter_forgets(one: DedupeCoreView, other: DedupeCoreView, from: int)
    requires
        one.root == other.root,
        one.groups == other.groups,
        one.options == other.options,
        one.warned == other.warned,
    ensures
        dedupe_enter(one, from) == dedupe_enter(other, from),
{
}

pub(crate) proof fn lemma_link_is_relayed(core: DedupeCoreView)
    ensures
        relays(
            dedupe_machine(),
            link_machine(),
            |step: LinkStepView| dedupe_linked(core, step),
        ),
{
}

pub(crate) proof fn lemma_compare_is_relayed(core: DedupeCoreView)
    ensures
        relays(
            dedupe_machine(),
            compare_machine(),
            |step: CompareStepView| dedupe_compared(core, step),
        ),
{
}

proof fn lemma_ingest_is_relayed(core: DedupeCoreView)
    ensures
        relays(
            dedupe_machine(),
            ingest_machine(),
            |step: IngestStepView| dedupe_ingest(core, step),
        ),
{
}

/// The run, having made a clone at the path of the file at work, tells so
/// and turns to the next file.
proof fn lemma_told(core: DedupeCoreView, world: World, later: DedupeStepView, then: World)
    requires
        core.group < core.groups.len(),
        core.member < group_at_work(core).paths.len(),
        !is_temp(group_at_work(core).paths[core.member as int]),
        reaches(
            dedupe_machine(),
            dedupe_next_member(core),
            World {
                told: world.told.push(
                    ReportView::Linked {
                        kind: LinkType::Reflink,
                        verified: core.options.paranoid && core.verified,
                        path: group_at_work(core).paths[core.member as int],
                    },
                ),
                ..world
            },
            later,
            then,
        ),
    ensures
        reaches(
            dedupe_machine(),
            dedupe_linked(core, LinkStepView::Finish(Ok(Some(LinkType::Reflink)))),
            world,
            later,
            then,
        ),
{
    let machine = dedupe_machine();
    let telling = dedupe_told(core, LinkType::Reflink);
    let path = group_at_work(core).paths[core.member as int];
    let told = World {
        told: world.told.push(
            ReportView::Linked {
                kind: LinkType::Reflink,
                verified: core.options.paranoid && core.verified,
                path,
            },
        ),
        ..world
    };
    assert(world_round(machine, telling, world) == (dedupe_next_member(core), told));
    lemma_reaches_after_round(machine, telling, world, later, then);
}

/// From the file `from` of the group on, the run replaces every file by a
/// clone of the master, tells of each, writes the group's count, and
/// enters the next group.
proof fn lemma_members_are_replaced(
    core: DedupeCoreView,
    vault: Seq<char>,
    paths: Seq<Seq<char>>,
    from: int,
    world: World,
)
    requires
        at_work(core, vault, paths),
        1 <= from <= paths.len(),
        fit_for(world.tree, vault, paths, from),
        core.options.paranoid ==> equal_the_master(world.tree, vault, paths, from),
    ensures
        reaches(
            dedupe_machine(),
            dedupe_member(core, from, false),
            world,
            dedupe_enter(core, core.group + 1),
            World {
                tree: members_replaced(world.tree, vault, paths, from),
                store: Store {
                    counts: world.store.counts.insert(
                        group_at_work(core).hash,
                        paths.len() as u64,
                    ),
                    ..world.store
                },
                told: world.told + cloned_lines(paths, core.options.paranoid).subrange(
                    from,
                    paths.len() as int,
                ),
            },
        ),
    decreases paths.len() - from,
{
    let machine = dedupe_machine();
    let hash = group_at_work(core).hash;
    let lines = cloned_lines(paths, core.options.paranoid);
    let end = dedupe_enter(core, core.group + 1);
    let then = World {
        tree: members_replaced(world.tree, vault, paths, from),
        store: Store { counts: world.store.counts.insert(hash, paths.len() as u64), ..world.store },
        told: world.told + lines.subrange(from, paths.len() as int),
    };
    let here = dedupe_member(core, from, false);
    if from == paths.len() {
        assert(world.told + lines.subrange(from, paths.len() as int) =~= world.told);
        assert(world_round(machine, here, world) == (end, then));
        lemma_reaches_itself(machine, end, then);
        lemma_reaches_after_round(machine, here, world, end, then);
    } else {
        let target = paths[from];
        let at = DedupeCoreView {
            member: from as usize,
            verified: if core.options.paranoid {
                true
            } else {
                core.verified
            },
            ..core
        };
        let tree = replaced_by_new_file(world.tree, target, world.tree.inode(vault).content);
        lemma_fit_for_next(world.tree, vault, paths, from);
        let start = replace_start(vault, target, core.options.allow_unsafe_hardlinks);
        let linking = dedupe_linked(at, start);
        if core.options.paranoid {
            // The file is compared with the master first, and equals it.
            let asked = DedupeCoreView { member: from as usize, verified: false, ..core };
            let compare = compare_start(vault, target);
            assert(here == dedupe_compared(asked, compare));
            lemma_compare_decides_equality(world.tree, vault, target);
            lemma_compare_is_relayed(asked);
            let wrap_compare = |step: CompareStepView| dedupe_compared(asked, step);
            lemma_relay(
                machine,
                compare_machine(),
                wrap_compare,
                compare,
                world,
                Ok(true),
                world.tree,
            );
            assert(wrap_compare(compare) == here);
            assert(wrap_compare(CompareStepView::Finish(Ok(true))) == linking);
            assert(World { tree: world.tree, ..world } == world);
        } else {
            assert(here == linking);
            lemma_reaches_itself(machine, here, world);
        }
        lemma_replace_makes_clone(world.tree, vault, target, core.options.allow_unsafe_hardlinks);
        lemma_link_is_relayed(at);
        let wrap = |step: LinkStepView| dedupe_linked(at, step);
        lemma_relay(
            machine,
            link_machine(),
            wrap,
            start,
            world,
            Ok(Some(LinkType::Reflink)),
            tree,
        );
        let linked = World { tree, ..world };
        let made = dedupe_linked(at, LinkStepView::Finish(Ok(Some(LinkType::Reflink))));
        assert(wrap(start) == linking);
        assert(wrap(LinkStepView::Finish(Ok(Some(LinkType::Reflink)))) == made);
        let told = World {
            told: linked.told.push(
                ReportView::Linked {
                    kind: LinkType::Reflink,
                    verified: core.options.paranoid,
                    path: target,
                },
            ),
            ..linked
        };
        let next = DedupeCoreView { verified: false, ..at };
        assert(dedupe_next_member(at) == dedupe_member(next, from + 1, false));
        lemma_members_are_replaced(next, vault, paths, from + 1, told);
        lemma_enter_forgets(next, core, core.group + 1);
        assert(told.told + lines.subrange(from + 1, paths.len() as int) =~= world.told
            + lines.subrange(from, paths.len() as int));
        lemma_told(at, linked, end, then);
        lemma_reaches_on(machine, linking, world, made, linked, end, then);
        lemma_reaches_on(machine, here, world, linking, world, end, then);
    }
}

/// `path` is one of `paths` at index `from` or later.
pub(crate) open spec fn is_later_member(paths: Seq<Seq<char>>, from: int, path: Seq<char>) -> bool {
    exists|j: int| from <= j < paths.len() && #[trigger] paths[j] == path
}

proof fn lemma_members_replaced_keeps(tree: Tree, vault: Seq<char>, paths: Seq<Seq<char>>, from: int)
    requires
        0 <= from <= paths.len(),
        fit_for(tree, vault, paths, from),
        !is_temp(vault),
    ensures
        forall|path: Seq<char>|
            !is_temp(path) ==> (#[trigger] members_replaced(tree, vault, paths, from).has(path)
                <==> tree.has(path)),
        forall|j: int|
            from <= j < paths.len() ==> members_replaced(tree, vault, paths, from).inode(
                #[trigger] paths[j],
            ) == (Inode { content: tree.inode(vault).content, ..tree.inode(paths[j]) }),
        forall|path: Seq<char>|
            tree.has(path) && !is_temp(path) && !is_later_member(paths, from, path)
                ==> #[trigger] members_replaced(tree, vault, paths, from).names[path]
                == tree.names[path],
        forall|path: Seq<char>|
            tree.has(path) && !is_temp(path) && !is_later_member(paths, from, path)
                ==> #[trigger] members_replaced(tree, vault, paths, from).inode(path)
                == tree.inode(path),
    decreases paths.len() - from,
{
    if from < paths.len() {
        let target = paths[from];
        let next = replaced_by_new_file(tree, target, tree.inode(vault).content);
        let after = members_replaced(tree, vault, paths, from);
        lemma_fit_for_next(tree, vault, paths, from);
        lemma_members_replaced_keeps(next, vault, paths, from + 1);
        lemma_temp_of_is_temp(target);
        assert(after == members_replaced(next, vault, paths, from + 1));
        assert(tree.inodes.contains_key(tree.names[vault]));
        assert(next.inode(vault) == tree.inode(vault));
        assert forall|path: Seq<char>| !is_temp(path) implies (#[trigger] after.has(path)
            <==> tree.has(path)) by {
            assert(next.has(path) <==> tree.has(path));
            assert(after.has(path) <==> next.has(path));
        }
        let rest = paths.subrange(from, paths.len() as int);
        assert forall|j: int| from <= j < paths.len() implies after.inode(#[trigger] paths[j])
            == (Inode { content: tree.inode(vault).content, ..tree.inode(paths[j]) }) by {
            assert(rest[j - from] == paths[j]);
            assert(tree.has(paths[j]));
            assert(tree.inodes.contains_key(tree.names[paths[j]]));
            if j == from {
                assert(!is_later_member(paths, from + 1, target)) by {
                    if is_later_member(paths, from + 1, target) {
                        let k = choose|k: int| from + 1 <= k < paths.len() && paths[k] == target;
                        assert(rest[k - from] == paths[k]);
                        assert(rest[0] == target);
                    }
                }
                assert(next.has(target));
            } else {
                assert(rest[0] == target);
                assert(paths[j] != target);
                assert(next.inode(paths[j]) == tree.inode(paths[j]));
            }
        }
        assert forall|path: Seq<char>|
            tree.has(path) && !is_temp(path) && !is_later_member(
                paths,
                from,
                path,
            ) implies #[trigger] after.names[path] == tree.names[path] && after.inode(path)
            == tree.inode(path) by {
            assert(path != target);
            assert(tree.inodes.contains_key(tree.names[path]));
            assert(!is_later_member(paths, from + 1, path)) by {
                if is_later_member(paths, from + 1, path) {
                    let k = choose|k: int| from + 1 <= k < paths.len() && paths[k] == path;
                    assert(paths[k] == path);
                }
            }
            assert(next.has(path));
            assert(next.names[path] == tree.names[path]);
            assert(next.inode(path) == tree.inode(path));
            assert(after.inode(path) == next.inode(path));
            assert(after.names[path] == next.names[path]);
        }
        assert forall|path: Seq<char>|
            tree.has(path) && !is_temp(path) && !is_later_member(
                paths,
                from,
                path,
            ) implies #[trigger] after.inode(path) == tree.inode(path) by {
            assert(after.names[path] == tree.names[path]);
        }
    } else {
        assert(members_replaced(tree, vault, paths, from) == tree);
    }
}

/// What deduplicating a group keeps. No file is lost and none is added
/// but the master: the files without staging names are those of before
/// and the master. The master is the group's first file itself, with its
/// inode. Every file of the group has the bytes of the first, so every
/// file that was a duplicate of the first has the bytes it had. Every
/// file of the group has the permission bits, modification time and
/// attributes it had. Every other file is untouched.
pub proof fn lemma_deduplicated_group_keeps_files_and_bytes(
    tree: Tree,
    root: Seq<char>,
    group: GroupView,
)
    requires
        group_is_ready(tree, root, group),
    ensures
        ({
            let vault = shard_path_of(root, group.hash@);
            let paths = group.paths;
            let after = group_deduplicated(tree, vault, paths);
            &&& forall|path: Seq<char>|
                !is_temp(path) ==> (#[trigger] after.has(path) <==> tree.has(path) || path
                    == vault)
            &&& after.names[vault] == tree.names[paths[0]]
            &&& after.inode(vault) == tree.inode(paths[0])
            &&& forall|i: int|
                0 <= i < paths.len() ==> after.inode(#[trigger] paths[i]).content == tree.inode(
                    paths[0],
                ).content
            &&& forall|i: int|
                0 <= i < paths.len() && tree.inode(paths[i]).content == tree.inode(
                    paths[0],
                ).content ==> after.inode(#[trigger] paths[i]).content == tree.inode(
                    paths[i],
                ).content
            &&& forall|i: int|
                0 <= i < paths.len() ==> after.inode(#[trigger] paths[i]) == Inode {
                    content: tree.inode(paths[0]).content,
                    ..tree.inode(paths[i])
                }
            &&& forall|path: Seq<char>|
                tree.has(path) && !is_temp(path) && !paths.contains(path)
                    ==> #[trigger] after.names[path] == tree.names[path]
            &&& forall|path: Seq<char>|
                tree.has(path) && !is_temp(path) && !paths.contains(path)
                    ==> #[trigger] after.inode(path) == tree.inode(path)
        }),
{
    let vault = shard_path_of(root, group.hash@);
    let paths = group.paths;
    let master = paths[0];
    let tree1 = taken_in(tree, master, vault);
    let tree2 = cloned_at_vacant_path(tree1, vault, master);
    let after = group_deduplicated(tree, vault, paths);
    lemma_master_path_is_no_staging_name(root, group.hash@);
    lemma_temp_of_is_temp(vault);
    lemma_temp_of_is_temp(master);
    assert(tree.has(master) && !is_temp(master));
    assert(tree.inodes.contains_key(tree.names[master]));
    assert(fit_for(tree2, vault, paths, 1)) by {
        let later = paths.subrange(1, paths.len() as int);
        assert forall|i: int| 0 <= i < later.len() implies tree2.has(#[trigger] later[i])
            && !is_temp(later[i]) && later[i] != vault && tree2.inode(later[i]).xattrs.len()
            <= usize::MAX by {
            assert(later[i] == paths[i + 1]);
            assert(paths[i + 1] != paths[0]);
            assert(tree.inodes.contains_key(tree.names[later[i]]));
        }
        assert forall|i: int, j: int| 0 <= i < j < later.len() implies later[i] != later[j] by {
            assert(later[i] == paths[i + 1] && later[j] == paths[j + 1]);
        }
        assert(tree2.well_formed()) by {
            assert forall|path: Seq<char>| #[trigger] tree2.names.contains_key(path) implies tree2.inodes.contains_key(
                tree2.names[path],
            ) by {
                if path != master && path != vault {
                    assert(tree.names.contains_key(path));
                }
            }
        }
    }
    lemma_members_replaced_keeps(tree2, vault, paths, 1);
    assert(tree2.inode(vault) == tree.inode(master));
    assert(!is_later_member(paths, 1, vault)) by {
        if is_later_member(paths, 1, vault) {
            let k = choose|k: int| 1 <= k < paths.len() && paths[k] == vault;
            assert(paths[k] != vault);
        }
    }
    assert(!is_later_member(paths, 1, master)) by {
        if is_later_member(paths, 1, master) {
            let k = choose|k: int| 1 <= k < paths.len() && paths[k] == master;
            assert(paths[0] != paths[k]);
        }
    }
    assert(tree2.has(vault) && tree2.has(master));
    assert(after.inode(vault) == tree.inode(master));
    assert(after.inode(master) == tree2.inode(master));
    assert forall|path: Seq<char>| !is_temp(path) implies (#[trigger] after.has(path)
        <==> tree.has(path) || path == vault) by {
        assert(tree2.has(path) <==> tree.has(path) || path == vault);
    }
    assert forall|i: int| 0 <= i < paths.len() implies after.inode(#[trigger] paths[i]) == (Inode {
        content: tree.inode(paths[0]).content,
        ..tree.inode(paths[i])
    }) by {
        if i > 0 {
            assert(paths[i] != paths[0]);
            assert(tree.has(paths[i]));
            assert(tree.inodes.contains_key(tree.names[paths[i]]));
            assert(tree2.inode(paths[i]) == tree.inode(paths[i]));
        }
    }
    assert forall|path: Seq<char>|
        tree.has(path) && !is_temp(path) && !paths.contains(
            path,
        ) implies #[trigger] after.names[path] == tree.names[path] && after.inode(path)
        == tree.inode(path) by {
        assert(path != master);
        assert(path != vault);
        assert(tree.inodes.contains_key(tree.names[path]));
        assert(!is_later_member(paths, 1, path)) by {
            if is_later_member(paths, 1, path) {
                let k = choose|k: int| 1 <= k < paths.len() && paths[k] == path;
                assert(paths.contains(path));
            }
        }
        assert(tree2.has(path));
        assert(tree2.names[path] == tree.names[path]);
        assert(tree2.inode(path) == tree.inode(path));
        assert(after.names[path] == tree2.names[path]);
        assert(after.inode(path) == tree2.inode(path));
    }
    assert forall|path: Seq<char>|
        tree.has(path) && !is_temp(path) && !paths.contains(
            path,
        ) implies #[trigger] after.inode(path) == tree.inode(path) by {
        assert(after.names[path] == tree.names[path]);
    }
}

/// The group can be deduplicated in `tree`, with the vault at `root`: it
/// has two or more files, which are in the tree, differ from each other
/// and have no staging names; its digest has no master yet; the file
/// system makes clones and has inode numbers left for them.
pub open spec fn group_is_ready(tree: Tree, root: Seq<char>, group: GroupView) -> bool {
    &&& tree.well_formed()
    &&& tree.cow
    &&& !tree.has(shard_path_of(root, group.hash@))
    &&& 2 <= group.paths.len() <= usize::MAX
    &&& tree.next + group.paths.len() < u64::MAX
    &&& are_files_of(tree, shard_path_of(root, group.hash@), group.paths)
}

/// The run at work on the first file of the group `g`.
pub(crate) open spec fn entered(core: DedupeCoreView, g: int) -> DedupeCoreView {
    DedupeCoreView {
        group: g as usize,
        member: 0,
        vault_path: shard_path_of(core.root, core.groups[g].hash@),
        verified: false,
        ..core
    }
}

/// A run that enters a group moves the group's first file into the vault
/// as the master and turns to the master's old path, which is then
/// vacant.
pub(crate) proof fn lemma_master_moves_in(core: DedupeCoreView, g: int, world: World)
    requires
        !core.options.dry_run,
        0 <= g < core.groups.len() <= usize::MAX,
        2 <= core.groups[g].paths.len(),
        world.tree.has(core.groups[g].paths[0]),
        !is_temp(core.groups[g].paths[0]),
        !world.tree.has(shard_path_of(core.root, core.groups[g].hash@)),
    ensures
        reaches(
            dedupe_machine(),
            dedupe_enter(core, g),
            world,
            dedupe_linked(
                entered(core, g),
                replace_start(
                    shard_path_of(core.root, core.groups[g].hash@),
                    core.groups[g].paths[0],
                    core.options.allow_unsafe_hardlinks,
                ),
            ),
            World {
                tree: taken_in(
                    world.tree,
                    core.groups[g].paths[0],
                    shard_path_of(core.root, core.groups[g].hash@),
                ),
                ..world
            },
        ),
{
    let machine = dedupe_machine();
    let group = core.groups[g];
    let vault = shard_path_of(core.root, group.hash@);
    let master = group.paths[0];
    let at = entered(core, g);
    let tree1 = taken_in(world.tree, master, vault);
    let world1 = World { tree: tree1, ..world };
    lemma_master_path_is_no_staging_name(core.root, group.hash@);
    lemma_temp_of_is_temp(vault);
    assert(next_duplicates(core.groups, g) == Some(g));
    let ingest = ingest_start(core.root, group.hash@, master);
    let entering = dedupe_enter(core, g);
    assert(entering == dedupe_ingest(at, ingest));
    lemma_ingest_moves_file(world.tree, core.root, group.hash@, master);
    lemma_ingest_is_relayed(at);
    let wrap_ingest = |step: IngestStepView| dedupe_ingest(at, step);
    lemma_relay(machine, ingest_machine(), wrap_ingest, ingest, world, Ok(()), tree1);
    let linking = dedupe_linked(
        at,
        replace_start(vault, master, core.options.allow_unsafe_hardlinks),
    );
    let taken = dedupe_ingest(at, IngestStepView::Finish(Ok(())));
    assert(wrap_ingest(ingest) == entering);
    assert(wrap_ingest(IngestStepView::Finish(Ok(()))) == taken);
    lemma_reaches_itself(machine, linking, world1);
    if core.options.paranoid {
        // The master's old path is vacant: there is nothing to compare.
        assert(world_round(machine, taken, world1) == (linking, world1));
        lemma_reaches_after_round(machine, taken, world1, linking, world1);
    } else {
        assert(taken == linking);
    }
    lemma_reaches_on(machine, entering, world, taken, world1, linking, world1);
}

/// The files of the group are duplicates: each has the bytes of the
/// first, which is short enough to be read through.
pub open spec fn group_is_of_duplicates(tree: Tree, group: GroupView) -> bool {
    equal_the_master(tree, group.paths[0], group.paths, 0)
}

/// A run that is not dry, on a file system that makes clones,
/// deduplicates a group that is ready and enters the next group: the
/// group's first file is then the master in the vault, every file of the
/// group is a clone of the master at its old path, the group's count is
/// the number of its files, and the user has been told of each file. A
/// paranoid run does so for a group of duplicates.
pub proof fn lemma_group_is_deduplicated(core: DedupeCoreView, g: int, world: World)
    requires
        !core.options.dry_run,
        0 <= g < core.groups.len() <= usize::MAX,
        group_is_ready(world.tree, core.root, core.groups[g]),
        core.options.paranoid ==> group_is_of_duplicates(world.tree, core.groups[g]),
    ensures
        reaches(
            dedupe_machine(),
            dedupe_enter(core, g),
            world,
            dedupe_enter(core, g + 1),
            World {
                tree: group_deduplicated(
                    world.tree,
                    shard_path_of(core.root, core.groups[g].hash@),
                    core.groups[g].paths,
                ),
                store: Store {
                    counts: world.store.counts.insert(
                        core.groups[g].hash,
                        core.groups[g].paths.len() as u64,
                    ),
                    ..world.store
                },
                told: world.told + cloned_lines(core.groups[g].paths, core.options.paranoid),
            },
        ),
{
    let machine = dedupe_machine();
    let group = core.groups[g];
    let paths = group.paths;
    let vault = shard_path_of(core.root, group.hash@);
    let master = paths[0];
    let allow = core.options.allow_unsafe_hardlinks;
    let at = DedupeCoreView {
        group: g as usize,
        member: 0,
        vault_path: vault,
        verified: false,
        ..core
    };
    let end = dedupe_enter(core, g + 1);
    let tree0 = world.tree;
    let tree1 = taken_in(tree0, master, vault);
    let tree2 = cloned_at_vacant_path(tree1, vault, master);
    let then = World {
        tree: group_deduplicated(tree0, vault, paths),
        store: Store {
            counts: world.store.counts.insert(group.hash, paths.len() as u64),
            ..world.store
        },
        told: world.told + cloned_lines(paths, core.options.paranoid),
    };
    lemma_master_path_is_no_staging_name(core.root, group.hash@);
    lemma_temp_of_is_temp(vault);
    lemma_temp_of_is_temp(master);
    assert(next_duplicates(core.groups, g) == Some(g));
    assert(tree0.has(master) && !is_temp(master));
    assert(tree0.inodes.contains_key(tree0.names[master]));
    // The master goes into the vault.
    lemma_master_moves_in(core, g, world);
    assert(at == entered(core, g));
    let world1 = World { tree: tree1, ..world };
    // A clone of the master is made at the master's old path.
    let link = replace_start(vault, master, allow);
    let linking = dedupe_linked(at, link);
    assert(tree1.well_formed()) by {
        assert(tree0.inodes.contains_key(tree0.names[master]));
        assert forall|path: Seq<char>| #[trigger] tree1.names.contains_key(path) implies tree1.inodes.contains_key(
            tree1.names[path],
        ) by {
            if path != vault {
                assert(tree0.names.contains_key(path));
            }
        }
    }
    lemma_replace_clones_at_vacant_path(tree1, vault, master, allow);
    lemma_link_is_relayed(at);
    let wrap_link = |step: LinkStepView| dedupe_linked(at, step);
    let made = dedupe_linked(at, LinkStepView::Finish(Ok(Some(LinkType::Reflink))));
    lemma_relay(
        machine,
        link_machine(),
        wrap_link,
        link,
        world1,
        Ok(Some(LinkType::Reflink)),
        tree2,
    );
    let world2 = World { tree: tree2, ..world1 };
    assert(wrap_link(link) == linking);
    assert(wrap_link(LinkStepView::Finish(Ok(Some(LinkType::Reflink)))) == made);
    // The other files are replaced.
    let told = World {
        told: world2.told.push(
            ReportView::Linked { kind: LinkType::Reflink, verified: false, path: master },
        ),
        ..world2
    };
    let next = DedupeCoreView { verified: false, ..at };
    assert(dedupe_next_member(at) == dedupe_member(next, 1, false));
    assert(fit_for(tree2, vault, paths, 1)) by {
        let later = paths.subrange(1, paths.len() as int);
        assert forall|i: int| 0 <= i < later.len() implies tree2.has(#[trigger] later[i])
            && !is_temp(later[i]) && later[i] != vault && tree2.inode(later[i]).xattrs.len()
            <= usize::MAX by {
            assert(later[i] == paths[i + 1]);
            assert(paths[i + 1] != paths[0]);
            assert(tree0.inodes.contains_key(tree0.names[later[i]]));
        }
        assert forall|i: int, j: int| 0 <= i < j < later.len() implies later[i] != later[j] by {
            assert(later[i] == paths[i + 1] && later[j] == paths[j + 1]);
        }
        assert(tree2.well_formed()) by {
            assert forall|path: Seq<char>| #[trigger] tree2.names.contains_key(path) implies tree2.inodes.contains_key(
                tree2.names[path],
            ) by {
                if path != master {
                    assert(tree1.names.contains_key(path));
                }
            }
        }
    }
    if core.options.paranoid {
        assert(tree2.inode(vault) == tree0.inode(master));
        assert forall|j: int| 1 <= j < paths.len() implies tree2.inode(#[trigger] paths[j]).content
            == tree2.inode(vault).content by {
            assert(paths[j] != paths[0]);
            assert(tree0.has(paths[j]));
            assert(tree0.inodes.contains_key(tree0.names[paths[j]]));
            assert(tree2.inode(paths[j]) == tree0.inode(paths[j]));
        }
        assert(equal_the_master(tree2, vault, paths, 1));
    }
    lemma_members_are_replaced(next, vault, paths, 1, told);
    lemma_enter_forgets(next, core, g + 1);
    assert(told.told + cloned_lines(paths, core.options.paranoid).subrange(
        1,
        paths.len() as int,
    ) =~= world.told + cloned_lines(paths, core.options.paranoid));
    lemma_told(at, world2, end, then);
    lemma_reaches_on(machine, linking, world1, made, world2, end, then);
    lemma_reaches_on(machine, dedupe_enter(core, g), world, linking, world1, end, then);
}

/// The world after a group has been deduplicated.
pub open spec fn after_group(world: World, root: Seq<char>, group: GroupView, paranoid: bool) -> World {
    World {
        tree: group_deduplicated(world.tree, shard_path_of(root, group.hash@), group.paths),
        store: Store {
            counts: world.store.counts.insert(group.hash, group.paths.len() as u64),
            ..world.store
        },
        told: world.told + cloned_lines(group.paths, paranoid),
    }
}

/// The world after the groups from index `from` on have been
/// deduplicated, one after the other; groups of fewer than two files are
/// passed over.
pub open spec fn after_groups(
    world: World,
    root: Seq<char>,
    groups: Seq<GroupView>,
    paranoid: bool,
    from: int,
) -> World
    decreases groups.len() - from,
{
    if from < 0 || from >= groups.len() {
        world
    } else if groups[from].paths.len() < 2 {
        after_groups(world, root, groups, paranoid, from + 1)
    } else {
        after_groups(
            after_group(world, root, groups[from], paranoid),
            root,
            groups,
            paranoid,
            from + 1,
        )
    }
}

/// Each group of two or more files, from index `from` on, is ready when
/// the run comes to it, and, for a paranoid run, is a group of
/// duplicates.
pub open spec fn groups_are_ready(
    tree: Tree,
    root: Seq<char>,
    groups: Seq<GroupView>,
    paranoid: bool,
    from: int,
) -> bool
    decreases groups.len() - from,
{
    if from < 0 || from >= groups.len() {
        true
    } else if groups[from].paths.len() < 2 {
        groups_are_ready(tree, root, groups, paranoid, from + 1)
    } else {
        &&& group_is_ready(tree, root, groups[from])
        &&& paranoid ==> group_is_of_duplicates(tree, groups[from])
        &&& groups_are_ready(
            group_deduplicated(tree, shard_path_of(root, groups[from].hash@), groups[from].paths),
            root,
            groups,
            paranoid,
            from + 1,
        )
    }
}

proof fn lemma_groups_are_deduplicated(core: DedupeCoreView, from: int, world: World)
    requires
        !core.options.dry_run,
        0 <= from,
        core.groups.len() <= usize::MAX,
        groups_are_ready(world.tree, core.root, core.groups, core.options.paranoid, from),
    ensures
        reaches(
            dedupe_machine(),
            dedupe_enter(core, from),
            world,
            DedupeStepView::Finish(Ok(())),
            after_groups(world, core.root, core.groups, core.options.paranoid, from),
        ),
    decreases core.groups.len() - from,
{
    let machine = dedupe_machine();
    let end = DedupeStepView::Finish(Ok(()));
    let then = after_groups(world, core.root, core.groups, core.options.paranoid, from);
    if from >= core.groups.len() {
        lemma_reaches_itself(machine, end, world);
    } else if core.groups[from].paths.len() < 2 {
        assert(dedupe_enter(core, from) == dedupe_enter(core, from + 1));
        lemma_groups_are_deduplicated(core, from + 1, world);
    } else {
        let next = after_group(world, core.root, core.groups[from], core.options.paranoid);
        lemma_group_is_deduplicated(core, from, world);
        lemma_groups_are_deduplicated(core, from + 1, next);
        lemma_reaches_on(
            machine,
            dedupe_enter(core, from),
            world,
            dedupe_enter(core, from + 1),
            next,
            end,
            then,
        );
    }
}

/// A run that is not dry, on a file system that makes clones, ends
/// without an error when every group is ready as the run comes to it, and
/// has then deduplicated every group of two or more files, in their
/// order.
pub proof fn lemma_run_deduplicates_every_group(
    root: Seq<char>,
    groups: Seq<GroupView>,
    options: DedupeOptions,
    world: World,
)
    requires
        !options.dry_run,
        groups.len() <= usize::MAX,
        groups_are_ready(world.tree, root, groups, options.paranoid, 0),
    ensures
        reaches(
            dedupe_machine(),
            dedupe_start(root, groups, options),
            world,
            DedupeStepView::Finish(Ok(())),
            after_groups(world, root, groups, options.paranoid, 0),
        ),
{
    lemma_groups_are_deduplicated(
        DedupeCoreView {
            root,
            groups,
            options,
            group: 0,
            member: 0,
            vault_path: Seq::empty(),
            warned: false,
            verified: false,
        },
        0,
        world,
    );
}

/// `path` is the path of the master of one of the groups of two or more
/// files, from index `from` on.
pub open spec fn is_master_path(
    root: Seq<char>,
    groups: Seq<GroupView>,
    from: int,
    path: Seq<char>,
) -> bool {
    exists|g: int|
        from <= g < groups.len() && (#[trigger] groups[g]).paths.len() >= 2 && path
            == shard_path_of(root, groups[g].hash@)
}

/// A run keeps the set of files: after it, the files of the tree that
/// have no staging names are those of before and the masters in the
/// vault. No file is lost, none is renamed, and none is added but the
/// masters.
pub proof fn lemma_run_keeps_every_file(
    world: World,
    root: Seq<char>,
    groups: Seq<GroupView>,
    paranoid: bool,
    from: int,
    path: Seq<char>,
)
    requires
        0 <= from,
        groups_are_ready(world.tree, root, groups, paranoid, from),
        !is_temp(path),
    ensures
        after_groups(world, root, groups, paranoid, from).tree.has(path) <==> world.tree.has(path)
            || is_master_path(root, groups, from, path),
    decreases groups.len() - from,
{
    if from < groups.len() {
        let group = groups[from];
        if group.paths.len() < 2 {
            lemma_run_keeps_every_file(world, root, groups, paranoid, from + 1, path);
            if is_master_path(root, groups, from, path) {
                let g = choose|g: int|
                    from <= g < groups.len() && (#[trigger] groups[g]).paths.len() >= 2 && path
                        == shard_path_of(root, groups[g].hash@);
                assert(groups[g].paths.len() >= 2);
                assert(is_master_path(root, groups, from + 1, path));
            }
        } else {
            let next = after_group(world, root, group, paranoid);
            lemma_deduplicated_group_keeps_files_and_bytes(world.tree, root, group);
            lemma_run_keeps_every_file(next, root, groups, paranoid, from + 1, path);
            assert(next.tree.has(path) <==> world.tree.has(path) || path == shard_path_of(
                root,
                group.hash@,
            ));
            if is_master_path(root, groups, from, path) {
                let g = choose|g: int|
                    from <= g < groups.len() && (#[trigger] groups[g]).paths.len() >= 2 && path
                        == shard_path_of(root, groups[g].hash@);
                if g > from {
                    assert(groups[g].paths.len() >= 2);
                    assert(is_master_path(root, groups, from + 1, path));
                }
            }
            if path == shard_path_of(root, group.hash@) {
                assert(groups[from].paths.len() >= 2);
                assert(is_master_path(root, groups, from, path));
            }
            if is_master_path(root, groups, from + 1, path) {
                let g = choose|g: int|
                    from + 1 <= g < groups.len() && (#[trigger] groups[g]).paths.len() >= 2
                        && path == shard_path_of(root, groups[g].hash@);
                assert(groups[g].paths.len() >= 2);
                assert(is_master_path(root, groups, from, path));
            }
        }
    } else {
        if is_master_path(root, groups, from, path) {
            let g = choose|g: int|
                from <= g < groups.len() && (#[trigger] groups[g]).paths.len() >= 2 && path
                    == shard_path_of(root, groups[g].hash@);
        }
    }
}

proof fn lemma_members_replaced_add_no_staged(
    tree: Tree,
    vault: Seq<char>,
    paths: Seq<Seq<char>>,
    from: int,
    path: Seq<char>,
)
    requires
        0 <= from <= paths.len(),
        fit_for(tree, vault, paths, from),
        !is_temp(vault),
        is_temp(path),
    ensures
        members_replaced(tree, vault, paths, from).has(path) ==> tree.has(path),
    decreases paths.len() - from,
{
    if from < paths.len() {
        let next = replaced_by_new_file(tree, paths[from], tree.inode(vault).content);
        lemma_fit_for_next(tree, vault, paths, from);
        lemma_members_replaced_add_no_staged(next, vault, paths, from + 1, path);
    }
}

/// A run leaves no staged file behind: a staging name that is in the tree
/// after the run was there before it. The run adds none.
pub proof fn lemma_run_leaves_no_staged_file(
    world: World,
    root: Seq<char>,
    groups: Seq<GroupView>,
    paranoid: bool,
    from: int,
    path: Seq<char>,
)
    requires
        0 <= from,
        groups_are_ready(world.tree, root, groups, paranoid, from),
        is_temp(path),
    ensures
        after_groups(world, root, groups, paranoid, from).tree.has(path) ==> world.tree.has(path),
    decreases groups.len() - from,
{
    if from < groups.len() {
        let group = groups[from];
        if group.paths.len() < 2 {
            lemma_run_leaves_no_staged_file(world, root, groups, paranoid, from + 1, path);
        } else {
            let vault = shard_path_of(root, group.hash@);
            let master = group.paths[0];
            let tree1 = taken_in(world.tree, master, vault);
            let tree2 = cloned_at_vacant_path(tree1, vault, master);
            let next = after_group(world, root, group, paranoid);
            assert(world.tree.has(master) && !is_temp(master));
            lemma_tree_with_clone_is_fit(world.tree, root, group);
            lemma_members_replaced_add_no_staged(tree2, vault, group.paths, 1, path);
            assert(tree2.has(path) ==> world.tree.has(path));
            lemma_run_leaves_no_staged_file(next, root, groups, paranoid, from + 1, path);
        }
    }
}

/// The tree in which the group's first file has become the master and a
/// clone of it stands at its old path is fit for the replacement of the
/// other files.
proof fn lemma_tree_with_clone_is_fit(tree: Tree, root: Seq<char>, group: GroupView)
    requires
        group_is_ready(tree, root, group),
    ensures
        fit_for(
            cloned_at_vacant_path(
                taken_in(tree, group.paths[0], shard_path_of(root, group.hash@)),
                shard_path_of(root, group.hash@),
                group.paths[0],
            ),
            shard_path_of(root, group.hash@),
            group.paths,
            1,
        ),
        !is_temp(shard_path_of(root, group.hash@)),
{
    let vault = shard_path_of(root, group.hash@);
    let paths = group.paths;
    let master = paths[0];
    let tree1 = taken_in(tree, master, vault);
    let tree2 = cloned_at_vacant_path(tree1, vault, master);
    lemma_master_path_is_no_staging_name(root, group.hash@);
    lemma_temp_of_is_temp(vault);
    lemma_temp_of_is_temp(master);
    assert(tree.has(master) && !is_temp(master));
    assert(tree.inodes.contains_key(tree.names[master]));
    let later = paths.subrange(1, paths.len() as int);
    assert forall|i: int| 0 <= i < later.len() implies tree2.has(#[trigger] later[i]) && !is_temp(
        later[i],
    ) && later[i] != vault && tree2.inode(later[i]).xattrs.len() <= usize::MAX by {
        assert(later[i] == paths[i + 1]);
        assert(paths[i + 1] != paths[0]);
        assert(tree.inodes.contains_key(tree.names[later[i]]));
    }
    assert forall|i: int, j: int| 0 <= i < j < later.len() implies later[i] != later[j] by {
        assert(later[i] == paths[i + 1] && later[j] == paths[j + 1]);
    }
    assert(tree2.well_formed()) by {
        assert forall|path: Seq<char>| #[trigger] tree2.names.contains_key(path) implies tree2.inodes.contains_key(
            tree2.names[path],
        ) by {
            if path != master && path != vault {
                assert(tree.names.contains_key(path));
            }
        }
    }
}

/// `path` is a file of none of the groups from index `from` on.
pub open spec fn is_in_no_group(groups: Seq<GroupView>, from: int, path: Seq<char>) -> bool {
    forall|g: int| from <= g < groups.len() ==> !(#[trigger] groups[g]).paths.contains(path)
}

/// A run leaves alone what it was not given: a file that is in no group
/// has, after the run, the inode it had, with its bytes and its metadata.
pub proof fn lemma_run_leaves_other_files(
    world: World,
    root: Seq<char>,
    groups: Seq<GroupView>,
    paranoid: bool,
    from: int,
    path: Seq<char>,
)
    requires
        0 <= from,
        groups_are_ready(world.tree, root, groups, paranoid, from),
        world.tree.has(path),
        !is_temp(path),
        is_in_no_group(groups, from, path),
    ensures
        after_groups(world, root, groups, paranoid, from).tree.has(path),
        after_groups(world, root, groups, paranoid, from).tree.names[path] == world.tree.names[path],
        after_groups(world, root, groups, paranoid, from).tree.inode(path) == world.tree.inode(path),
    decreases groups.len() - from,
{
    if from < groups.len() {
        let group = groups[from];
        assert(is_in_no_group(groups, from + 1, path));
        if group.paths.len() < 2 {
            lemma_run_leaves_other_files(world, root, groups, paranoid, from + 1, path);
        } else {
            let next = after_group(world, root, group, paranoid);
            assert(!group.paths.contains(path));
            lemma_deduplicated_group_keeps_files_and_bytes(world.tree, root, group);
            assert(next.tree.has(path));
            assert(next.tree.names[path] == world.tree.names[path]);
            assert(next.tree.inode(path) == world.tree.inode(path));
            lemma_run_leaves_other_files(next, root, groups, paranoid, from + 1, path);
        }
    }
}

/// No file is in two groups.
pub open spec fn groups_share_no_file(groups: Seq<GroupView>) -> bool {
    forall|g: int, h: int, i: int|
        0 <= g < groups.len() && 0 <= h < groups.len() && g != h && 0 <= i < groups[g].paths.len()
            ==> !(#[trigger] groups[h]).paths.contains(#[trigger] groups[g].paths[i])
}

/// A run keeps the bytes of every file: a file of a group that had the
/// bytes of the group's first file, as every true duplicate has, reads
/// after the run as it read before.
pub proof fn lemma_run_keeps_bytes(
    world: World,
    root: Seq<char>,
    groups: Seq<GroupView>,
    paranoid: bool,
    from: int,
    g: int,
    i: int,
)
    requires
        0 <= from <= g < groups.len(),
        groups_are_ready(world.tree, root, groups, paranoid, from),
        groups_share_no_file(groups),
        groups[g].paths.len() >= 2,
        0 <= i < groups[g].paths.len(),
        world.tree.has(groups[g].paths[i]),
        world.tree.has(groups[g].paths[0]),
        !is_temp(groups[g].paths[i]),
        !is_temp(groups[g].paths[0]),
        world.tree.inode(groups[g].paths[i]).content == world.tree.inode(
            groups[g].paths[0],
        ).content,
    ensures
        after_groups(world, root, groups, paranoid, from).tree.has(groups[g].paths[i]),
        after_groups(world, root, groups, paranoid, from).tree.inode(groups[g].paths[i]).content
            == world.tree.inode(groups[g].paths[i]).content,
    decreases g - from,
{
    let path = groups[g].paths[i];
    let first = groups[g].paths[0];
    let group = groups[from];
    if from < g {
        if group.paths.len() < 2 {
            lemma_run_keeps_bytes(world, root, groups, paranoid, from + 1, g, i);
        } else {
            let next = after_group(world, root, group, paranoid);
            assert(!groups[from].paths.contains(groups[g].paths[i]));
            assert(!groups[from].paths.contains(groups[g].paths[0]));
            lemma_deduplicated_group_keeps_files_and_bytes(world.tree, root, group);
            assert(next.tree.has(path) && next.tree.has(first));
            assert(next.tree.inode(path) == world.tree.inode(path));
            assert(next.tree.inode(first) == world.tree.inode(first));
            lemma_run_keeps_bytes(next, root, groups, paranoid, from + 1, g, i);
        }
    } else {
        let next = after_group(world, root, group, paranoid);
        lemma_deduplicated_group_keeps_files_and_bytes(world.tree, root, group);
        assert(next.tree.has(path));
        assert(next.tree.inode(group.paths[i]).content == world.tree.inode(first).content);
        assert forall|h: int| g + 1 <= h < groups.len() implies !(#[trigger] groups[h]).paths.contains(
            path,
        ) by {
            assert(!groups[h].paths.contains(groups[g].paths[i]));
        }
        assert(is_in_no_group(groups, g + 1, path));
        lemma_run_leaves_other_files(next, root, groups, paranoid, g + 1, path);
    }
}

/// A paranoid run catches a master that has rotted: where the vault holds
/// a master of the group's digest whose bytes differ from those of the
/// group's first file, the run tells of bit rot and gives the group up.
/// The master and every file of the group are as they were, no count is
/// written, and the run goes on with the next group.
pub proof fn lemma_rotten_master_is_told_and_group_left(core: DedupeCoreView, g: int, world: World)
    requires
        core.options.paranoid,
        !core.options.dry_run,
        0 <= g < core.groups.len() <= usize::MAX,
        2 <= core.groups[g].paths.len(),
        world.tree.has(shard_path_of(core.root, core.groups[g].hash@)),
        world.tree.has(core.groups[g].paths[0]),
        world.tree.inode(core.groups[g].paths[0]).content.len() <= u64::MAX,
        world.tree.inode(shard_path_of(core.root, core.groups[g].hash@)).content.len() <= u64::MAX,
        world.tree.inode(shard_path_of(core.root, core.groups[g].hash@)).content
            != world.tree.inode(core.groups[g].paths[0]).content,
    ensures
        reaches(
            dedupe_machine(),
            dedupe_enter(core, g),
            world,
            dedupe_enter(core, g + 1),
            World {
                told: world.told.push(ReportView::BitRot { path: core.groups[g].paths[0] }),
                ..world
            },
        ),
{
    let machine = dedupe_machine();
    let group = core.groups[g];
    let vault = shard_path_of(core.root, group.hash@);
    let master = group.paths[0];
    let at = entered(core, g);
    let end = dedupe_enter(core, g + 1);
    let then = World { told: world.told.push(ReportView::BitRot { path: master }), ..world };
    assert(next_duplicates(core.groups, g) == Some(g));
    // The master is in the vault and stays as it is.
    let ingest = ingest_start(core.root, group.hash@, master);
    let entering = dedupe_enter(core, g);
    assert(entering == dedupe_ingest(at, ingest));
    lemma_ingest_keeps_master(world.tree, core.root, group.hash@, master);
    lemma_ingest_is_relayed(at);
    let wrap_ingest = |step: IngestStepView| dedupe_ingest(at, step);
    lemma_relay(machine, ingest_machine(), wrap_ingest, ingest, world, Ok(()), world.tree);
    let probing = dedupe_ingest(at, IngestStepView::Finish(Ok(())));
    assert(wrap_ingest(ingest) == entering);
    assert(wrap_ingest(IngestStepView::Finish(Ok(()))) == probing);
    assert(World { tree: world.tree, ..world } == world);
    // The first file is there: it is compared with the master, and differs.
    let compare = compare_start(vault, master);
    let comparing = dedupe_compared(at, compare);
    assert(world_round(machine, probing, world) == (comparing, world));
    lemma_compare_decides_equality(world.tree, vault, master);
    lemma_compare_is_relayed(at);
    let wrap_compare = |step: CompareStepView| dedupe_compared(at, step);
    lemma_relay(machine, compare_machine(), wrap_compare, compare, world, Ok(false), world.tree);
    let telling = dedupe_compared(at, CompareStepView::Finish(Ok(false)));
    assert(wrap_compare(compare) == comparing);
    assert(wrap_compare(CompareStepView::Finish(Ok(false))) == telling);
    // The difference is told and the group given up.
    let told = dedupe_ask(
        at,
        DedupePhaseView::AfterMismatch,
        RequestView::Tell(ReportView::BitRot { path: master }),
    );
    assert(telling == told);
    lemma_enter_forgets(at, core, g + 1);
    assert(world_round(machine, told, world) == (end, then));
    lemma_reaches_itself(machine, end, then);
    lemma_reaches_after_round(machine, told, world, end, then);
    lemma_reaches_on(machine, comparing, world, telling, world, end, then);
    lemma_reaches_after_round(machine, probing, world, end, then);
    lemma_reaches_on(machine, entering, world, probing, world, end, then);
}

/// The lines that tell that the group's master is left as it is, with the
/// warning before them where the user has not been warned yet.
pub open spec fn skipped_lines(warned: bool, master: Seq<char>) -> Seq<ReportView> {
    if warned {
        seq![ReportView::Skipped { path: master }]
    } else {
        seq![ReportView::ReflinkUnsupported, ReportView::Skipped { path: master }]
    }
}

/// On a file system that makes no clones, a run that is not allowed to
/// make hard links leaves a group as it is: the master, which was moved
/// into the vault, is moved back to its old path, so that every file has
/// the name and the inode it had and the vault holds no master of the
/// group; only stale staged files are gone. No count is written. The user
/// is warned, once in a run, and told that the master was skipped.
pub proof fn lemma_group_is_left_alone_without_clones(core: DedupeCoreView, g: int, world: World)
    requires
        !core.options.dry_run,
        !core.options.allow_unsafe_hardlinks,
        !world.tree.cow,
        0 <= g < core.groups.len() <= usize::MAX,
        2 <= core.groups[g].paths.len(),
        can_record(world.tree, core.groups[g].paths[0]),
        !is_temp(core.groups[g].paths[0]),
        !world.tree.has(shard_path_of(core.root, core.groups[g].hash@)),
    ensures
        reaches(
            dedupe_machine(),
            dedupe_enter(core, g),
            world,
            dedupe_enter(DedupeCoreView { warned: true, ..core }, g + 1),
            World {
                tree: world.tree.without(
                    temp_of(shard_path_of(core.root, core.groups[g].hash@)),
                ).without(temp_of(core.groups[g].paths[0])),
                told: world.told + skipped_lines(core.warned, core.groups[g].paths[0]),
                ..world
            },
        ),
{
    let machine = dedupe_machine();
    let group = core.groups[g];
    let vault = shard_path_of(core.root, group.hash@);
    let master = group.paths[0];
    let at = DedupeCoreView {
        group: g as usize,
        member: 0,
        vault_path: vault,
        verified: false,
        ..core
    };
    let warned = DedupeCoreView { warned: true, ..at };
    let end = dedupe_enter(DedupeCoreView { warned: true, ..core }, g + 1);
    let tree0 = world.tree;
    let tree1 = taken_in(tree0, master, vault);
    let tree2 = tree1.without(temp_of(master));
    let tree3 = tree2.renamed(vault, master);
    let then = World {
        tree: tree0.without(temp_of(vault)).without(temp_of(master)),
        told: world.told + skipped_lines(core.warned, master),
        ..world
    };
    lemma_master_path_is_no_staging_name(core.root, group.hash@);
    lemma_temp_of_is_temp(vault);
    lemma_temp_of_is_temp(master);
    assert(next_duplicates(core.groups, g) == Some(g));
    assert(tree3.names =~= then.tree.names);
    assert(tree3 == then.tree);
    // The master goes into the vault.
    lemma_master_moves_in(core, g, world);
    assert(at == entered(core, g));
    let entering = dedupe_enter(core, g);
    let world1 = World { tree: tree1, ..world };
    // No clone can be made at its old path.
    let link = replace_start(vault, master, false);
    let linking = dedupe_linked(at, link);
    assert(tree0.inodes.contains_key(tree0.names[master]));
    assert(tree1.well_formed()) by {
        assert forall|path: Seq<char>| #[trigger] tree1.names.contains_key(path) implies tree1.inodes.contains_key(
            tree1.names[path],
        ) by {
            if path != vault {
                assert(tree0.names.contains_key(path));
            }
        }
    }
    assert(tree1.inode(vault) == tree0.inode(master));
    lemma_replace_is_refused_at_vacant_path(tree1, vault, master);
    lemma_link_is_relayed(at);
    let wrap_link = |step: LinkStepView| dedupe_linked(at, step);
    let refused = dedupe_linked(at, LinkStepView::Finish(Err(LinkError::ReflinkUnsupported)));
    lemma_relay(
        machine,
        link_machine(),
        wrap_link,
        link,
        world1,
        Err(LinkError::ReflinkUnsupported),
        tree2,
    );
    let world2 = World { tree: tree2, ..world1 };
    assert(wrap_link(link) == linking);
    assert(wrap_link(LinkStepView::Finish(Err(LinkError::ReflinkUnsupported))) == refused);
    // The master goes back, and the user is told.
    let world3 = World { tree: tree3, ..world2 };
    let skipping = crate::orchestrator::dedupe_skipped(warned);
    let skipped = World {
        told: world.told + skipped_lines(core.warned, master),
        ..world3
    };
    assert(skipped == then);
    lemma_enter_forgets(warned, DedupeCoreView { warned: true, ..core }, g + 1);
    lemma_reaches_itself(machine, end, then);
    if core.warned {
        assert(warned == at);
        assert(world3.told.push(ReportView::Skipped { path: master }) =~= then.told);
        assert(world_round(machine, refused, world2) == (skipping, world3));
        assert(world_round(machine, skipping, world3) == (end, then));
        lemma_reaches_after_round(machine, skipping, world3, end, then);
    } else {
        let warning = dedupe_ask(
            warned,
            DedupePhaseView::AfterWarning,
            RequestView::Tell(ReportView::ReflinkUnsupported),
        );
        let world4 = World { told: world3.told.push(ReportView::ReflinkUnsupported), ..world3 };
        assert(world4.told.push(ReportView::Skipped { path: master }) =~= then.told);
        assert(world_round(machine, refused, world2) == (warning, world3));
        assert(world_round(machine, warning, world3) == (skipping, world4));
        assert(world_round(machine, skipping, world4) == (end, then));
        lemma_reaches_after_round(machine, skipping, world4, end, then);
        lemma_reaches_after_round(machine, warning, world3, end, then);
    }
    lemma_reaches_after_round(machine, refused, world2, end, then);
    lemma_reaches_on(machine, linking, world1, refused, world2, end, then);
    lemma_reaches_on(machine, entering, world, linking, world1, end, then);
}

/// The world after a group has been left alone for want of clones.
pub open spec fn after_refusal(world: World, root: Seq<char>, group: GroupView, warned: bool) -> World {
    World {
        tree: world.tree.without(temp_of(shard_path_of(root, group.hash@))).without(
            temp_of(group.paths[0]),
        ),
        told: world.told + skipped_lines(warned, group.paths[0]),
        ..world
    }
}

/// The world after the groups from index `from` on have been left alone,
/// one after the other; `warned` says whether the user has been warned
/// before.
pub open spec fn after_refusals(
    world: World,
    root: Seq<char>,
    groups: Seq<GroupView>,
    warned: bool,
    from: int,
) -> World
    decreases groups.len() - from,
{
    if from < 0 || from >= groups.len() {
        world
    } else if groups[from].paths.len() < 2 {
        after_refusals(world, root, groups, warned, from + 1)
    } else {
        after_refusals(after_refusal(world, root, groups[from], warned), root, groups, true, from + 1)
    }
}

/// Of each group of two or more files, from index `from` on, the first
/// file is in the tree, has no staging name, and can be recorded, and the
/// group's digest has no master.
pub open spec fn groups_can_be_refused(tree: Tree, root: Seq<char>, groups: Seq<GroupView>, from: int) -> bool
    decreases groups.len() - from,
{
    if from < 0 || from >= groups.len() {
        true
    } else if groups[from].paths.len() < 2 {
        groups_can_be_refused(tree, root, groups, from + 1)
    } else {
        &&& can_record(tree, groups[from].paths[0])
        &&& !is_temp(groups[from].paths[0])
        &&& !tree.has(shard_path_of(root, groups[from].hash@))
        &&& groups_can_be_refused(
            tree.without(temp_of(shard_path_of(root, groups[from].hash@))).without(
                temp_of(groups[from].paths[0]),
            ),
            root,
            groups,
            from + 1,
        )
    }
}

proof fn lemma_groups_are_refused(core: DedupeCoreView, from: int, world: World)
    requires
        !core.options.dry_run,
        !core.options.allow_unsafe_hardlinks,
        !world.tree.cow,
        0 <= from,
        core.groups.len() <= usize::MAX,
        groups_can_be_refused(world.tree, core.root, core.groups, from),
    ensures
        reaches(
            dedupe_machine(),
            dedupe_enter(core, from),
            world,
            DedupeStepView::Finish(Ok(())),
            after_refusals(world, core.root, core.groups, core.warned, from),
        ),
    decreases core.groups.len() - from,
{
    let machine = dedupe_machine();
    let end = DedupeStepView::Finish(Ok(()));
    let then = after_refusals(world, core.root, core.groups, core.warned, from);
    if from >= core.groups.len() {
        lemma_reaches_itself(machine, end, world);
    } else if core.groups[from].paths.len() < 2 {
        assert(dedupe_enter(core, from) == dedupe_enter(core, from + 1));
        lemma_groups_are_refused(core, from + 1, world);
    } else {
        let next = after_refusal(world, core.root, core.groups[from], core.warned);
        let warned = DedupeCoreView { warned: true, ..core };
        lemma_group_is_left_alone_without_clones(core, from, world);
        lemma_groups_are_refused(warned, from + 1, next);
        lemma_reaches_on(
            machine,
            dedupe_enter(core, from),
            world,
            dedupe_enter(warned, from + 1),
            next,
            end,
            then,
        );
    }
}

/// On a file system that makes no clones, a run that is not allowed to
/// make hard links ends without an error and leaves every group alone:
/// every master is back at its old path, and the user has been told of
/// each.
pub proof fn lemma_run_leaves_every_group_alone(
    root: Seq<char>,
    groups: Seq<GroupView>,
    options: DedupeOptions,
    world: World,
)
    requires
        !options.dry_run,
        !options.allow_unsafe_hardlinks,
        !world.tree.cow,
        groups.len() <= usize::MAX,
        groups_can_be_refused(world.tree, root, groups, 0),
    ensures
        reaches(
            dedupe_machine(),
            dedupe_start(root, groups, options),
            world,
            DedupeStepView::Finish(Ok(())),
            after_refusals(world, root, groups, false, 0),
        ),
{
    lemma_groups_are_refused(
        DedupeCoreView {
            root,
            groups,
            options,
            group: 0,
            member: 0,
            vault_path: Seq::empty(),
            warned: false,
            verified: false,
        },
        0,
        world,
    );
}

/// The number of warnings among the lines: of lines that say that the
/// file system makes no clones.
pub open spec fn warnings(told: Seq<ReportView>) -> nat
    decreases told.len(),
{
    if told.len() == 0 {
        0
    } else if told.last() is ReflinkUnsupported {
        warnings(told.drop_last()) + 1
    } else {
        warnings(told.drop_last())
    }
}

proof fn lemma_warnings_add(told: Seq<ReportView>, more: Seq<ReportView>)
    ensures
        warnings(told + more) == warnings(told) + warnings(more),
    decreases more.len(),
{
    if more.len() == 0 {
        assert(told + more =~= told);
    } else {
        assert((told + more).drop_last() =~= told + more.drop_last());
        assert((told + more).last() == more.last());
        lemma_warnings_add(told, more.drop_last());
    }
}

/// The warning is told once in a run, however many groups are left alone:
/// once where a group is left alone and the user has not been warned, and
/// not at all where no group is left alone.
pub proof fn lemma_warning_is_told_once(
    world: World,
    root: Seq<char>,
    groups: Seq<GroupView>,
    warned: bool,
    from: int,
)
    requires
        0 <= from,
    ensures
        warnings(after_refusals(world, root, groups, warned, from).told) == warnings(world.told)
            + if !warned && next_duplicates(groups, from).is_some() {
            1nat
        } else {
            0nat
        },
    decreases groups.len() - from,
{
    if from < groups.len() {
        if groups[from].paths.len() < 2 {
            lemma_warning_is_told_once(world, root, groups, warned, from + 1);
        } else {
            let next = after_refusal(world, root, groups[from], warned);
            let lines = skipped_lines(warned, groups[from].paths[0]);
            lemma_warnings_add(world.told, lines);
            assert(warnings(lines) == if warned {
                0nat
            } else {
                1nat
            }) by {
                reveal_with_fuel(warnings, 3);
                if warned {
                    assert(lines.drop_last() =~= Seq::<ReportView>::empty());
                } else {
                    assert(lines.drop_last() =~= seq![ReportView::ReflinkUnsupported]);
                    assert(lines.drop_last().drop_last() =~= Seq::<ReportView>::empty());
                }
            }
            lemma_warning_is_told_once(next, root, groups, true, from + 1);
        }
    }
}

} // verus!
