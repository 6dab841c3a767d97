//! What a dedupe run does to a world where it makes hard links: groups
//! of duplicates on a file system that makes no clones.

use vstd::prelude::*;
use crate::dedupe::{compare_start, replace_start, CompareStepView, LinkStepView, LinkType};
use crate::hash_laws::{compare_machine, lemma_compare_decides_equality};
use crate::link_laws::{
    can_relink, lemma_replace_hard_links_at_vacant_path, lemma_replace_makes_hard_link,
    link_machine, replaced_by_hard_link,
};
use crate::model::{
    lemma_attr_put_all_keeps_names_apart, lemma_reaches_after_round, lemma_reaches_itself,
    lemma_reaches_on, lemma_relay, reaches, world_round, Store, Tree, World,
};
use crate::orchestrator::{
    dedupe_ask, dedupe_compared, dedupe_enter, dedupe_linked, dedupe_member, dedupe_next_member,
    dedupe_start, dedupe_told, group_at_work, DedupeCoreView, DedupeOptions, DedupePhaseView,
    DedupeStepView,
};
use crate::paths::{is_temp, lemma_temp_of_is_temp, temp_of};
use crate::pipeline::{GroupView, ReportView, RequestView};
use crate::run_laws::{
    are_files_of, at_work, dedupe_machine, entered, equal_the_master, group_is_of_duplicates,
    groups_share_no_file, is_in_no_group, is_later_member, is_master_path,
    lemma_compare_is_relayed, lemma_enter_forgets, lemma_link_is_relayed, lemma_master_moves_in,
};
use crate::state::StoreRequestView;
use crate::vault::shard_path_of;
use crate::vault_laws::{lemma_master_path_is_no_staging_name, taken_in};

verus! {

/// The lines that tell of the files of a group as replaced by hard
/// links. In a paranoid run every file but the first is told as verified.
pub open spec fn hard_linked_lines(paths: Seq<Seq<char>>, paranoid: bool) -> Seq<ReportView> {
    Seq::new(
        paths.len(),
        |i: int|
            ReportView::Linked {
                kind: LinkType::HardLink,
                verified: paranoid && i > 0,
                path: paths[i],
            },
    )
}

/// The tree after the files of `paths` from index `from` on have become,
/// one after the other, names of the master's inode.
pub open spec fn members_linked(tree: Tree, vault: Seq<char>, paths: Seq<Seq<char>>, from: int) -> Tree
    decreases paths.len() - from,
{
    if from < 0 || from >= paths.len() {
        tree
    } else {
        members_linked(replaced_by_hard_link(tree, vault, paths[from]), vault, paths, from + 1)
    }
}

/// The tree after a group has been deduplicated by hard links: the first
/// file has been moved to the master's path, its old path has become a
/// second name of the master, and every other file a further one.
pub open spec fn group_hard_linked(tree: Tree, vault: Seq<char>, paths: Seq<Seq<char>>) -> Tree {
    let moved = taken_in(tree, paths[0], vault);
    members_linked(
        Tree {
            names: moved.names.remove(temp_of(paths[0])).insert(paths[0], moved.names[vault]),
            ..moved
        },
        vault,
        paths,
        1,
    )
}

/// The tree is fit for the linking of the files from index `from` on:
/// none of them is a name of the master's inode yet.
spec fn fit_for_links(tree: Tree, vault: Seq<char>, paths: Seq<Seq<char>>, from: int) -> bool {
    &&& tree.well_formed()
    &&& !tree.cow
    &&& tree.has(vault)
    &&& tree.next < u64::MAX
    &&& are_files_of(tree, vault, paths.subrange(from, paths.len() as int))
    &&& forall|j: int|
        from <= j < paths.len() ==> tree.names[#[trigger] paths[j]] != tree.names[vault]
}

proof fn lemma_fit_for_next_link(tree: Tree, vault: Seq<char>, paths: Seq<Seq<char>>, from: int)
    requires
        0 <= from < paths.len(),
        fit_for_links(tree, vault, paths, from),
        !is_temp(vault),
    ensures
        fit_for_links(replaced_by_hard_link(tree, vault, paths[from]), vault, paths, from + 1),
        replaced_by_hard_link(tree, vault, paths[from]).names[vault] == tree.names[vault],
        replaced_by_hard_link(tree, vault, paths[from]).names[paths[from]] == tree.names[vault],
        replaced_by_hard_link(tree, vault, paths[from]).has(paths[from]),
        can_relink(tree, paths[from]),
        !is_temp(paths[from]),
        vault != paths[from],
        vault != temp_of(paths[from]),
        equal_the_master(tree, vault, paths, from) ==> equal_the_master(
            replaced_by_hard_link(tree, vault, paths[from]),
            vault,
            paths,
            from + 1,
        ),
{
    let target = paths[from];
    let after = replaced_by_hard_link(tree, vault, target);
    let rest = paths.subrange(from, paths.len() as int);
    let later = paths.subrange(from + 1, paths.len() as int);
    lemma_temp_of_is_temp(target);
    assert(rest[0] == target);
    assert(tree.has(target));
    assert(tree.inodes.contains_key(tree.names[vault]));
    assert(tree.inodes.contains_key(tree.names[target]));
    lemma_attr_put_all_keeps_names_apart(tree.inode(vault).xattrs, tree.inode(target).xattrs, 0);
    assert forall|j: int| from < j < paths.len() implies after.has(#[trigger] paths[j])
        && after.names[paths[j]] == tree.names[paths[j]] && after.inode(paths[j]) == tree.inode(
        paths[j],
    ) by {
        assert(rest[j - from] == paths[j]);
        assert(tree.has(paths[j]));
        assert(paths[j] != target);
        assert(tree.inodes.contains_key(tree.names[paths[j]]));
    }
    assert forall|i: int| 0 <= i < later.len() implies after.has(#[trigger] later[i]) && !is_temp(
        later[i],
    ) && later[i] != vault && after.inode(later[i]).xattrs.len() <= usize::MAX by {
        assert(later[i] == rest[i + 1]);
        assert(later[i] == paths[from + 1 + i]);
    }
    assert forall|i: int, j: int| 0 <= i < j < later.len() implies later[i] != later[j] by {
        assert(later[i] == rest[i + 1] && later[j] == rest[j + 1]);
    }
    assert(after.well_formed()) by {
        assert forall|path: Seq<char>| #[trigger] after.names.contains_key(path) implies after.inodes.contains_key(
            after.names[path],
        ) by {
            if path != target {
                assert(tree.names.contains_key(path));
            }
        }
    }
}

/// The run, having made a hard link at the path of the file at work,
/// marks the link's inode, tells of the link, and turns to the next file.
proof fn lemma_marked_and_told(core: DedupeCoreView, world: World, later: DedupeStepView, then: World)
    requires
        core.group < core.groups.len(),
        core.member < group_at_work(core).paths.len(),
        !is_temp(group_at_work(core).paths[core.member as int]),
        world.tree.has(group_at_work(core).paths[core.member as int]),
        reaches(
            dedupe_machine(),
            dedupe_next_member(core),
            World {
                store: Store {
                    vaulted: world.store.vaulted.insert(
                        world.tree.names[group_at_work(core).paths[core.member as int]],
                    ),
                    ..world.store
                },
                told: world.told.push(
                    ReportView::Linked {
                        kind: LinkType::HardLink,
                        verified: core.options.paranoid && core.verified,
                        path: group_at_work(core).paths[core.member as int],
                    },
                ),
                ..world
            },
            later,
            then,
        ),
    ensures
        reaches(
            dedupe_machine(),
            dedupe_linked(core, LinkStepView::Finish(Ok(Some(LinkType::HardLink)))),
            world,
            later,
            then,
        ),
{
    let machine = dedupe_machine();
    let path = group_at_work(core).paths[core.member as int];
    let inode = world.tree.names[path];
    let asking = dedupe_linked(core, LinkStepView::Finish(Ok(Some(LinkType::HardLink))));
    let marking = dedupe_ask(
        core,
        DedupePhaseView::MarkLinked,
        RequestView::Store(StoreRequestView::MarkInodeVaulted { inode }),
    );
    let marked = World {
        store: Store { vaulted: world.store.vaulted.insert(inode), ..world.store },
        ..world
    };
    let telling = dedupe_told(core, LinkType::HardLink);
    let told = World {
        told: world.told.push(
            ReportView::Linked {
                kind: LinkType::HardLink,
                verified: core.options.paranoid && core.verified,
                path,
            },
        ),
        ..marked
    };
    assert(world_round(machine, asking, world) == (marking, world));
    assert(world_round(machine, marking, world) == (telling, marked));
    assert(world_round(machine, telling, marked) == (dedupe_next_member(core), told));
    lemma_reaches_after_round(machine, telling, marked, later, then);
    lemma_reaches_after_round(machine, marking, world, later, then);
    lemma_reaches_after_round(machine, asking, world, later, then);
}

/// From the file `from` of the group on, the run makes every file a name
/// of the master's inode, marks the inode, tells of each file, writes the
/// group's count, and enters the next group.
proof fn lemma_members_are_linked(
    core: DedupeCoreView,
    vault: Seq<char>,
    paths: Seq<Seq<char>>,
    from: int,
    world: World,
)
    requires
        at_work(core, vault, paths),
        core.options.allow_unsafe_hardlinks,
        1 <= from <= paths.len(),
        fit_for_links(world.tree, vault, paths, from),
        world.store.vaulted.contains(world.tree.names[vault]),
        core.options.paranoid ==> equal_the_master(world.tree, vault, paths, from),
    ensures
        reaches(
            dedupe_machine(),
            dedupe_member(core, from, false),
            world,
            dedupe_enter(core, core.group + 1),
            World {
                tree: members_linked(world.tree, vault, paths, from),
                store: Store {
                    counts: world.store.counts.insert(
                        group_at_work(core).hash,
                        paths.len() as u64,
                    ),
                    ..world.store
                },
                told: world.told + hard_linked_lines(paths, core.options.paranoid).subrange(
                    from,
                    paths.len() as int,
                ),
            },
        ),
    decreases paths.len() - from,
{
    let machine = dedupe_machine();
    let hash = group_at_work(core).hash;
    let lines = hard_linked_lines(paths, core.options.paranoid);
    let end = dedupe_enter(core, core.group + 1);
    let then = World {
        tree: members_linked(world.tree, vault, paths, from),
        store: Store { counts: world.store.counts.insert(hash, paths.len() as u64), ..world.store },
        told: world.told + lines.subrange(from, paths.len() as int),
    };
    let here = dedupe_member(core, from, false);
    if from == paths.len() {
        assert(world.told + lines.subrange(from, paths.len() as int) =~= world.told);
        assert(world_round(machine, here, world) == (end, then));
        lemma_reaches_itself(machine, end, then);
        lemma_reaches_after_round(machine, here, world, end, then);
    } else {
        let target = paths[from];
        let at = DedupeCoreView {
            member: from as usize,
            verified: if core.options.paranoid {
                true
            } else {
                core.verified
            },
            ..core
        };
        let tree = replaced_by_hard_link(world.tree, vault, target);
        lemma_fit_for_next_link(world.tree, vault, paths, from);
        let start = replace_start(vault, target, true);
        let linking = dedupe_linked(at, start);
        if core.options.paranoid {
            let asked = DedupeCoreView { member: from as usize, verified: false, ..core };
            let compare = compare_start(vault, target);
            assert(here == dedupe_compared(asked, compare));
            lemma_compare_decides_equality(world.tree, vault, target);
            lemma_compare_is_relayed(asked);
            let wrap_compare = |step: CompareStepView| dedupe_compared(asked, step);
            lemma_relay(
                machine,
                compare_machine(),
                wrap_compare,
                compare,
                world,
                Ok(true),
                world.tree,
            );
            assert(wrap_compare(compare) == here);
            assert(wrap_compare(CompareStepView::Finish(Ok(true))) == linking);
            assert(World { tree: world.tree, ..world } == world);
        } else {
            assert(here == linking);
            lemma_reaches_itself(machine, here, world);
        }
        lemma_replace_makes_hard_link(world.tree, vault, target);
        lemma_link_is_relayed(at);
        let wrap = |step: LinkStepView| dedupe_linked(at, step);
        lemma_relay(
            machine,
            link_machine(),
            wrap,
            start,
            world,
            Ok(Some(LinkType::HardLink)),
            tree,
        );
        let linked = World { tree, ..world };
        let made = dedupe_linked(at, LinkStepView::Finish(Ok(Some(LinkType::HardLink))));
        assert(wrap(start) == linking);
        assert(wrap(LinkStepView::Finish(Ok(Some(LinkType::HardLink)))) == made);
        assert(linked.store.vaulted.insert(tree.names[target]) =~= world.store.vaulted);
        let told = World {
            told: linked.told.push(
                ReportView::Linked {
                    kind: LinkType::HardLink,
                    verified: core.options.paranoid,
                    path: target,
                },
            ),
            ..linked
        };
        let next = DedupeCoreView { verified: false, ..at };
        assert(dedupe_next_member(at) == dedupe_member(next, from + 1, false));
        lemma_members_are_linked(next, vault, paths, from + 1, told);
        lemma_enter_forgets(next, core, core.group + 1);
        assert(told.told + lines.subrange(from + 1, paths.len() as int) =~= world.told
            + lines.subrange(from, paths.len() as int));
        lemma_marked_and_told(at, linked, end, then);
        lemma_reaches_on(machine, linking, world, made, linked, end, then);
        lemma_reaches_on(machine, here, world, linking, world, end, then);
    }
}

/// The group can be deduplicated by hard links in `tree`, with the vault
/// at `root`: it has two or more files, which are in the tree, have
/// different paths and inodes of their own, and no staging names; its
/// digest has no master yet; and the file system makes no clones.
pub open spec fn group_is_ready_for_links(tree: Tree, root: Seq<char>, group: GroupView) -> bool {
    &&& tree.well_formed()
    &&& !tree.cow
    &&& tree.next < u64::MAX
    &&& !tree.has(shard_path_of(root, group.hash@))
    &&& 2 <= group.paths.len() <= usize::MAX
    &&& are_files_of(tree, shard_path_of(root, group.hash@), group.paths)
    &&& forall|j: int|
        1 <= j < group.paths.len() ==> tree.names[#[trigger] group.paths[j]]
            != tree.names[group.paths[0]]
}

/// On a file system that makes no clones, a run that is allowed to make
/// hard links deduplicates a group that is ready and enters the next
/// group: the group's first file is then the master in the vault, every
/// file of the group is a name of the master's inode, that inode is
/// marked in the store, the group's count is the number of its files, and
/// the user has been told of each file. A paranoid run does so for a
/// group of duplicates.
pub proof fn lemma_group_is_hard_linked(core: DedupeCoreView, g: int, world: World)
    requires
        !core.options.dry_run,
        core.options.allow_unsafe_hardlinks,
        0 <= g < core.groups.len() <= usize::MAX,
        group_is_ready_for_links(world.tree, core.root, core.groups[g]),
        core.options.paranoid ==> group_is_of_duplicates(world.tree, core.groups[g]),
    ensures
        reaches(
            dedupe_machine(),
            dedupe_enter(core, g),
            world,
            dedupe_enter(core, g + 1),
            World {
                tree: group_hard_linked(
                    world.tree,
                    shard_path_of(core.root, core.groups[g].hash@),
                    core.groups[g].paths,
                ),
                store: Store {
                    counts: world.store.counts.insert(
                        core.groups[g].hash,
                        core.groups[g].paths.len() as u64,
                    ),
                    vaulted: world.store.vaulted.insert(world.tree.names[core.groups[g].paths[0]]),
                    ..world.store
                },
                told: world.told + hard_linked_lines(core.groups[g].paths, core.options.paranoid),
            },
        ),
{
    let machine = dedupe_machine();
    let group = core.groups[g];
    let paths = group.paths;
    let vault = shard_path_of(core.root, group.hash@);
    let master = paths[0];
    let at = entered(core, g);
    let end = dedupe_enter(core, g + 1);
    let tree0 = world.tree;
    let inode = tree0.names[master];
    let tree1 = taken_in(tree0, master, vault);
    let tree2 = Tree { names: tree1.names.remove(temp_of(master)).insert(master, inode), ..tree1 };
    let then = World {
        tree: group_hard_linked(tree0, vault, paths),
        store: Store {
            counts: world.store.counts.insert(group.hash, paths.len() as u64),
            vaulted: world.store.vaulted.insert(inode),
            ..world.store
        },
        told: world.told + hard_linked_lines(paths, core.options.paranoid),
    };
    lemma_master_path_is_no_staging_name(core.root, group.hash@);
    lemma_temp_of_is_temp(vault);
    lemma_temp_of_is_temp(master);
    assert(tree0.has(master) && !is_temp(master));
    assert(tree0.inodes.contains_key(inode));
    // The master goes into the vault.
    lemma_master_moves_in(core, g, world);
    let world1 = World { tree: tree1, ..world };
    // Its old path becomes a second name of it.
    let link = replace_start(vault, master, true);
    let linking = dedupe_linked(at, link);
    assert(tree1.well_formed()) by {
        assert forall|path: Seq<char>| #[trigger] tree1.names.contains_key(path) implies tree1.inodes.contains_key(
            tree1.names[path],
        ) by {
            if path != vault {
                assert(tree0.names.contains_key(path));
            }
        }
    }
    assert(tree1.inode(vault) == tree0.inode(master));
    lemma_replace_hard_links_at_vacant_path(tree1, vault, master);
    lemma_link_is_relayed(at);
    let wrap_link = |step: LinkStepView| dedupe_linked(at, step);
    let made = dedupe_linked(at, LinkStepView::Finish(Ok(Some(LinkType::HardLink))));
    lemma_relay(
        machine,
        link_machine(),
        wrap_link,
        link,
        world1,
        Ok(Some(LinkType::HardLink)),
        tree2,
    );
    let world2 = World { tree: tree2, ..world1 };
    assert(wrap_link(link) == linking);
    assert(wrap_link(LinkStepView::Finish(Ok(Some(LinkType::HardLink)))) == made);
    // The other files are linked.
    let told = World {
        store: Store { vaulted: world.store.vaulted.insert(inode), ..world.store },
        told: world2.told.push(
            ReportView::Linked { kind: LinkType::HardLink, verified: false, path: master },
        ),
        ..world2
    };
    let next = DedupeCoreView { verified: false, ..at };
    assert(dedupe_next_member(at) == dedupe_member(next, 1, false));
    assert(fit_for_links(tree2, vault, paths, 1)) by {
        let later = paths.subrange(1, paths.len() as int);
        assert forall|j: int| 1 <= j < paths.len() implies tree2.has(#[trigger] paths[j])
            && tree2.names[paths[j]] == tree0.names[paths[j]] && tree2.inode(paths[j])
            == tree0.inode(paths[j]) by {
            assert(paths[j] != paths[0]);
            assert(tree0.has(paths[j]));
            assert(tree0.inodes.contains_key(tree0.names[paths[j]]));
        }
        assert forall|i: int| 0 <= i < later.len() implies tree2.has(#[trigger] later[i])
            && !is_temp(later[i]) && later[i] != vault && tree2.inode(later[i]).xattrs.len()
            <= usize::MAX by {
            assert(later[i] == paths[i + 1]);
        }
        assert forall|i: int, j: int| 0 <= i < j < later.len() implies later[i] != later[j] by {
            assert(later[i] == paths[i + 1] && later[j] == paths[j + 1]);
        }
        assert(tree2.well_formed()) by {
            assert forall|path: Seq<char>| #[trigger] tree2.names.contains_key(path) implies tree2.inodes.contains_key(
                tree2.names[path],
            ) by {
                if path != master {
                    assert(tree1.names.contains_key(path));
                }
            }
        }
    }
    if core.options.paranoid {
        assert(tree2.inode(vault) == tree0.inode(master));
        assert forall|j: int| 1 <= j < paths.len() implies tree2.inode(#[trigger] paths[j]).content
            == tree2.inode(vault).content by {
            assert(paths[j] != paths[0]);
            assert(tree0.has(paths[j]));
            assert(tree0.inodes.contains_key(tree0.names[paths[j]]));
            assert(tree2.inode(paths[j]) == tree0.inode(paths[j]));
        }
        assert(equal_the_master(tree2, vault, paths, 1));
    }
    lemma_members_are_linked(next, vault, paths, 1, told);
    lemma_enter_forgets(next, core, g + 1);
    assert(told.told + hard_linked_lines(paths, core.options.paranoid).subrange(
        1,
        paths.len() as int,
    ) =~= world.told + hard_linked_lines(paths, core.options.paranoid));
    lemma_marked_and_told(at, world2, end, then);
    lemma_reaches_on(machine, linking, world1, made, world2, end, then);
    lemma_reaches_on(machine, dedupe_enter(core, g), world, linking, world1, end, then);
}

/// After a group has been deduplicated by hard links, every file of the
/// group is a name of one inode: the inode that the group's first file
/// had, which is now the master's, with the bytes of the first file.
pub proof fn lemma_hard_linked_group_shares_one_inode(
    tree: Tree,
    root: Seq<char>,
    group: GroupView,
    i: int,
)
    requires
        group_is_ready_for_links(tree, root, group),
        0 <= i < group.paths.len(),
    ensures
        ({
            let vault = shard_path_of(root, group.hash@);
            let after = group_hard_linked(tree, vault, group.paths);
            &&& after.has(group.paths[i])
            &&& after.has(vault)
            &&& after.names[group.paths[i]] == tree.names[group.paths[0]]
            &&& after.names[vault] == tree.names[group.paths[0]]
            &&& after.inode(vault).content == tree.inode(group.paths[0]).content
        }),
{
    let vault = shard_path_of(root, group.hash@);
    let paths = group.paths;
    let master = paths[0];
    let tree1 = taken_in(tree, master, vault);
    let tree2 = Tree {
        names: tree1.names.remove(temp_of(master)).insert(master, tree1.names[vault]),
        ..tree1
    };
    lemma_master_path_is_no_staging_name(root, group.hash@);
    lemma_temp_of_is_temp(vault);
    lemma_temp_of_is_temp(master);
    assert(tree.has(master) && !is_temp(master));
    assert(tree.inodes.contains_key(tree.names[master]));
    assert(fit_for_links(tree2, vault, paths, 1)) by {
        let later = paths.subrange(1, paths.len() as int);
        assert forall|j: int| 1 <= j < paths.len() implies tree2.has(#[trigger] paths[j])
            && tree2.names[paths[j]] == tree.names[paths[j]] && tree2.inode(paths[j])
            == tree.inode(paths[j]) by {
            assert(paths[j] != paths[0]);
            assert(tree.has(paths[j]));
            assert(tree.inodes.contains_key(tree.names[paths[j]]));
        }
        assert forall|k: int| 0 <= k < later.len() implies tree2.has(#[trigger] later[k])
            && !is_temp(later[k]) && later[k] != vault && tree2.inode(later[k]).xattrs.len()
            <= usize::MAX by {
            assert(later[k] == paths[k + 1]);
        }
        assert forall|k: int, j: int| 0 <= k < j < later.len() implies later[k] != later[j] by {
            assert(later[k] == paths[k + 1] && later[j] == paths[j + 1]);
        }
        assert(tree2.well_formed()) by {
            assert forall|path: Seq<char>| #[trigger] tree2.names.contains_key(path) implies tree2.inodes.contains_key(
                tree2.names[path],
            ) by {
                if path != master && path != vault {
                    assert(tree.names.contains_key(path));
                }
            }
        }
    }
    lemma_members_linked_share(tree2, vault, paths, 1, master);
    lemma_members_linked_share(tree2, vault, paths, 1, vault);
    if i > 0 {
        lemma_members_linked_share(tree2, vault, paths, 1, paths[i]);
        assert(is_later_member(paths, 1, paths[i]));
    }
    assert(!is_later_member(paths, 1, master)) by {
        if is_later_member(paths, 1, master) {
            let k = choose|k: int| 1 <= k < paths.len() && paths[k] == master;
            assert(paths[0] != paths[k]);
        }
    }
    assert(!is_later_member(paths, 1, vault)) by {
        if is_later_member(paths, 1, vault) {
            let k = choose|k: int| 1 <= k < paths.len() && paths[k] == vault;
            assert(paths[k] != vault);
        }
    }
    assert(tree2.inode(vault) == tree.inode(master));
}

/// After the files from `from` on have been linked, each of them is a
/// name of the master's inode; a file that is none of them and has no
/// staging name has the inode number it had; and the master's inode has
/// the bytes it had.
proof fn lemma_members_linked_share(
    tree: Tree,
    vault: Seq<char>,
    paths: Seq<Seq<char>>,
    from: int,
    path: Seq<char>,
)
    requires
        0 <= from <= paths.len(),
        fit_for_links(tree, vault, paths, from),
        !is_temp(vault),
        tree.has(path),
        !is_temp(path),
    ensures
        members_linked(tree, vault, paths, from).has(path),
        members_linked(tree, vault, paths, from).names[path] == if is_later_member(
            paths,
            from,
            path,
        ) {
            tree.names[vault]
        } else {
            tree.names[path]
        },
        members_linked(tree, vault, paths, from).inode(vault).content == tree.inode(
            vault,
        ).content,
    decreases paths.len() - from,
{
    if from < paths.len() {
        let target = paths[from];
        let next = replaced_by_hard_link(tree, vault, target);
        lemma_fit_for_next_link(tree, vault, paths, from);
        lemma_temp_of_is_temp(target);
        assert(next.has(path));
        assert(tree.inodes.contains_key(tree.names[vault]));
        assert(next.inode(vault).content == tree.inode(vault).content);
        lemma_members_linked_share(next, vault, paths, from + 1, path);
        if path == target {
            assert(is_later_member(paths, from, path));
            assert(!is_later_member(paths, from + 1, path)) by {
                if is_later_member(paths, from + 1, path) {
                    let k = choose|k: int| from + 1 <= k < paths.len() && paths[k] == path;
                    let rest = paths.subrange(from, paths.len() as int);
                    assert(rest[k - from] == paths[k]);
                    assert(rest[0] == target);
                }
            }
        } else {
            assert(next.names[path] == tree.names[path]);
            if is_later_member(paths, from + 1, path) {
                let k = choose|k: int| from + 1 <= k < paths.len() && paths[k] == path;
                assert(paths[k] == path);
                assert(is_later_member(paths, from, path));
            }
            if is_later_member(paths, from, path) {
                let k = choose|k: int| from <= k < paths.len() && paths[k] == path;
                assert(k != from);
                assert(paths[k] == path);
                assert(is_later_member(paths, from + 1, path));
            }
        }
    }
}

/// Linking the files from `from` on keeps the names of the tree: a path
/// that is no staging name is in the tree after it exactly if it was
/// before.
proof fn lemma_members_linked_keep_names(
    tree: Tree,
    vault: Seq<char>,
    paths: Seq<Seq<char>>,
    from: int,
    path: Seq<char>,
)
    requires
        0 <= from <= paths.len(),
        fit_for_links(tree, vault, paths, from),
        !is_temp(vault),
        !is_temp(path),
    ensures
        members_linked(tree, vault, paths, from).has(path) <==> tree.has(path),
    decreases paths.len() - from,
{
    if from < paths.len() {
        let target = paths[from];
        let next = replaced_by_hard_link(tree, vault, target);
        lemma_fit_for_next_link(tree, vault, paths, from);
        lemma_temp_of_is_temp(target);
        let rest = paths.subrange(from, paths.len() as int);
        assert(rest[0] == target);
        assert(tree.has(target));
        assert(next.has(path) <==> tree.has(path));
        lemma_members_linked_keep_names(next, vault, paths, from + 1, path);
    }
}

/// Linking the files from `from` on keeps the bytes of every inode.
proof fn lemma_members_linked_keep_bytes(
    tree: Tree,
    vault: Seq<char>,
    paths: Seq<Seq<char>>,
    from: int,
    number: u64,
)
    requires
        0 <= from <= paths.len(),
        fit_for_links(tree, vault, paths, from),
        !is_temp(vault),
        tree.inodes.contains_key(number),
    ensures
        members_linked(tree, vault, paths, from).inodes.contains_key(number),
        members_linked(tree, vault, paths, from).inodes[number].content
            == tree.inodes[number].content,
    decreases paths.len() - from,
{
    if from < paths.len() {
        let next = replaced_by_hard_link(tree, vault, paths[from]);
        lemma_fit_for_next_link(tree, vault, paths, from);
        assert(next.inodes.contains_key(number));
        assert(next.inodes[number].content == tree.inodes[number].content);
        lemma_members_linked_keep_bytes(next, vault, paths, from + 1, number);
    }
}

/// What deduplicating a group by hard links keeps, of a path that is no
/// staging name. The path is in the tree afterwards exactly if it was
/// before or is the master's. A file of the group is a name of the inode
/// that the group's first file had, and reads as the first file read; so
/// a file that was a duplicate of the first reads as it read before. Any
/// other file has the inode number it had and reads as it read before.
pub proof fn lemma_hard_linked_group_keeps_files_and_bytes(
    tree: Tree,
    root: Seq<char>,
    group: GroupView,
    path: Seq<char>,
)
    requires
        group_is_ready_for_links(tree, root, group),
        !is_temp(path),
    ensures
        ({
            let vault = shard_path_of(root, group.hash@);
            let after = group_hard_linked(tree, vault, group.paths);
            let first = group.paths[0];
            &&& after.has(path) <==> tree.has(path) || path == vault
            &&& tree.has(path) ==> after.names[path] == if group.paths.contains(path) {
                tree.names[first]
            } else {
                tree.names[path]
            }
            &&& tree.has(path) ==> after.inode(path).content == if group.paths.contains(path) {
                tree.inode(first).content
            } else {
                tree.inode(path).content
            }
        }),
{
    let vault = shard_path_of(root, group.hash@);
    let paths = group.paths;
    let master = paths[0];
    let tree1 = taken_in(tree, master, vault);
    let tree2 = Tree {
        names: tree1.names.remove(temp_of(master)).insert(master, tree1.names[vault]),
        ..tree1
    };
    let after = group_hard_linked(tree, vault, paths);
    lemma_master_path_is_no_staging_name(root, group.hash@);
    lemma_temp_of_is_temp(vault);
    lemma_temp_of_is_temp(master);
    assert(tree.has(master) && !is_temp(master));
    assert(tree.inodes.contains_key(tree.names[master]));
    lemma_moved_tree_is_fit(tree, root, group);
    assert(after == members_linked(tree2, vault, paths, 1));
    lemma_members_linked_keep_names(tree2, vault, paths, 1, path);
    assert(tree2.has(path) <==> tree.has(path) || path == vault);
    if tree.has(path) {
        assert(tree.inodes.contains_key(tree.names[path]));
        assert(tree2.has(path));
        lemma_members_linked_share(tree2, vault, paths, 1, path);
        lemma_members_linked_keep_bytes(tree2, vault, paths, 1, tree.names[path]);
        lemma_members_linked_keep_bytes(tree2, vault, paths, 1, tree.names[master]);
        if is_later_member(paths, 1, path) {
            let k = choose|k: int| 1 <= k < paths.len() && paths[k] == path;
            assert(paths[k] == path);
            assert(paths.contains(path));
        }
        if paths.contains(path) {
            let k = choose|k: int| 0 <= k < paths.len() && paths[k] == path;
            if k > 0 {
                assert(paths[k] == path);
                assert(is_later_member(paths, 1, path));
            } else {
                assert(path == master);
                assert(!is_later_member(paths, 1, master)) by {
                    if is_later_member(paths, 1, master) {
                        let j = choose|j: int| 1 <= j < paths.len() && paths[j] == master;
                        assert(paths[0] != paths[j]);
                    }
                }
            }
        } else {
            assert(path != master) by {
                if path == master {
                    assert(paths[0] == path);
                }
            }
            assert(path != vault);
            assert(tree2.names[path] == tree.names[path]);
        }
    }
}

/// The tree in which the group's first file has become the master and its
/// old path a name of the master is fit for the linking of the other
/// files.
proof fn lemma_moved_tree_is_fit(tree: Tree, root: Seq<char>, group: GroupView)
    requires
        group_is_ready_for_links(tree, root, group),
    ensures
        ({
            let vault = shard_path_of(root, group.hash@);
            let moved = taken_in(tree, group.paths[0], vault);
            fit_for_links(
                Tree {
                    names: moved.names.remove(temp_of(group.paths[0])).insert(
                        group.paths[0],
                        moved.names[vault],
                    ),
                    ..moved
                },
                vault,
                group.paths,
                1,
            )
        }),
        !is_temp(shard_path_of(root, group.hash@)),
{
    let vault = shard_path_of(root, group.hash@);
    let paths = group.paths;
    let master = paths[0];
    let tree1 = taken_in(tree, master, vault);
    let tree2 = Tree {
        names: tree1.names.remove(temp_of(master)).insert(master, tree1.names[vault]),
        ..tree1
    };
    lemma_master_path_is_no_staging_name(root, group.hash@);
    lemma_temp_of_is_temp(vault);
    lemma_temp_of_is_temp(master);
    assert(tree.has(master) && !is_temp(master));
    assert(tree.inodes.contains_key(tree.names[master]));
    let later = paths.subrange(1, paths.len() as int);
    assert forall|j: int| 1 <= j < paths.len() implies tree2.has(#[trigger] paths[j])
        && tree2.names[paths[j]] == tree.names[paths[j]] && tree2.inode(paths[j]) == tree.inode(
        paths[j],
    ) by {
        assert(paths[j] != paths[0]);
        assert(tree.has(paths[j]));
        assert(tree.inodes.contains_key(tree.names[paths[j]]));
    }
    assert forall|k: int| 0 <= k < later.len() implies tree2.has(#[trigger] later[k]) && !is_temp(
        later[k],
    ) && later[k] != vault && tree2.inode(later[k]).xattrs.len() <= usize::MAX by {
        assert(later[k] == paths[k + 1]);
    }
    assert forall|k: int, j: int| 0 <= k < j < later.len() implies later[k] != later[j] by {
        assert(later[k] == paths[k + 1] && later[j] == paths[j + 1]);
    }
    assert(tree2.well_formed()) by {
        assert forall|path: Seq<char>| #[trigger] tree2.names.contains_key(path) implies tree2.inodes.contains_key(
            tree2.names[path],
        ) by {
            if path != master && path != vault {
                assert(tree.names.contains_key(path));
            }
        }
    }
}

/// The world after a group has been deduplicated by hard links.
pub open spec fn after_group_linked(
    world: World,
    root: Seq<char>,
    group: GroupView,
    paranoid: bool,
) -> World {
    World {
        tree: group_hard_linked(world.tree, shard_path_of(root, group.hash@), group.paths),
        store: Store {
            counts: world.store.counts.insert(group.hash, group.paths.len() as u64),
            vaulted: world.store.vaulted.insert(world.tree.names[group.paths[0]]),
            ..world.store
        },
        told: world.told + hard_linked_lines(group.paths, paranoid),
    }
}

/// The world after the groups from index `from` on have been
/// deduplicated by hard links, one after the other; groups of fewer than
/// two files are passed over.
pub open spec fn after_groups_linked(
    world: World,
    root: Seq<char>,
    groups: Seq<GroupView>,
    paranoid: bool,
    from: int,
) -> World
    decreases groups.len() - from,
{
    if from < 0 || from >= groups.len() {
        world
    } else if groups[from].paths.len() < 2 {
        after_groups_linked(world, root, groups, paranoid, from + 1)
    } else {
        after_groups_linked(
            after_group_linked(world, root, groups[from], paranoid),
            root,
            groups,
            paranoid,
            from + 1,
        )
    }
}

/// Each group of two or more files, from index `from` on, is ready to be
/// deduplicated by hard links when the run comes to it, and, for a
/// paranoid run, is a group of duplicates.
pub open spec fn groups_are_ready_for_links(
    tree: Tree,
    root: Seq<char>,
    groups: Seq<GroupView>,
    paranoid: bool,
    from: int,
) -> bool
    decreases groups.len() - from,
{
    if from < 0 || from >= groups.len() {
        true
    } else if groups[from].paths.len() < 2 {
        groups_are_ready_for_links(tree, root, groups, paranoid, from + 1)
    } else {
        &&& group_is_ready_for_links(tree, root, groups[from])
        &&& paranoid ==> group_is_of_duplicates(tree, groups[from])
        &&& groups_are_ready_for_links(
            group_hard_linked(tree, shard_path_of(root, groups[from].hash@), groups[from].paths),
            root,
            groups,
            paranoid,
            from + 1,
        )
    }
}

proof fn lemma_groups_are_hard_linked(core: DedupeCoreView, from: int, world: World)
    requires
        !core.options.dry_run,
        core.options.allow_unsafe_hardlinks,
        0 <= from,
        core.groups.len() <= usize::MAX,
        groups_are_ready_for_links(
            world.tree,
            core.root,
            core.groups,
            core.options.paranoid,
            from,
        ),
    ensures
        reaches(
            dedupe_machine(),
            dedupe_enter(core, from),
            world,
            DedupeStepView::Finish(Ok(())),
            after_groups_linked(world, core.root, core.groups, core.options.paranoid, from),
        ),
    decreases core.groups.len() - from,
{
    let machine = dedupe_machine();
    let end = DedupeStepView::Finish(Ok(()));
    let then = after_groups_linked(world, core.root, core.groups, core.options.paranoid, from);
    if from >= core.groups.len() {
        lemma_reaches_itself(machine, end, world);
    } else if core.groups[from].paths.len() < 2 {
        assert(dedupe_enter(core, from) == dedupe_enter(core, from + 1));
        lemma_groups_are_hard_linked(core, from + 1, world);
    } else {
        let next = after_group_linked(world, core.root, core.groups[from], core.options.paranoid);
        lemma_group_is_hard_linked(core, from, world);
        lemma_groups_are_hard_linked(core, from + 1, next);
        lemma_reaches_on(
            machine,
            dedupe_enter(core, from),
            world,
            dedupe_enter(core, from + 1),
            next,
            end,
            then,
        );
    }
}

/// On a file system that makes no clones, a run that is allowed to make
/// hard links ends without an error when every group is ready as the run
/// comes to it, and has then deduplicated every group of two or more
/// files by hard links, in their order.
pub proof fn lemma_run_hard_links_every_group(
    root: Seq<char>,
    groups: Seq<GroupView>,
    options: DedupeOptions,
    world: World,
)
    requires
        !options.dry_run,
        options.allow_unsafe_hardlinks,
        groups.len() <= usize::MAX,
        groups_are_ready_for_links(world.tree, root, groups, options.paranoid, 0),
    ensures
        reaches(
            dedupe_machine(),
            dedupe_start(root, groups, options),
            world,
            DedupeStepView::Finish(Ok(())),
            after_groups_linked(world, root, groups, options.paranoid, 0),
        ),
{
    lemma_groups_are_hard_linked(
        DedupeCoreView {
            root,
            groups,
            options,
            group: 0,
            member: 0,
            vault_path: Seq::empty(),
            warned: false,
            verified: false,
        },
        0,
        world,
    );
}

/// A run that makes hard links keeps the set of files: after it, the
/// files of the tree that have no staging names are those of before and
/// the masters in the vault.
pub proof fn lemma_linked_run_keeps_every_file(
    world: World,
    root: Seq<char>,
    groups: Seq<GroupView>,
    paranoid: bool,
    from: int,
    path: Seq<char>,
)
    requires
        0 <= from,
        groups_are_ready_for_links(world.tree, root, groups, paranoid, from),
        !is_temp(path),
    ensures
        after_groups_linked(world, root, groups, paranoid, from).tree.has(path)
            <==> world.tree.has(path) || is_master_path(root, groups, from, path),
    decreases groups.len() - from,
{
    if from < groups.len() {
        let group = groups[from];
        if group.paths.len() < 2 {
            lemma_linked_run_keeps_every_file(world, root, groups, paranoid, from + 1, path);
            if is_master_path(root, groups, from, path) {
                let g = choose|g: int|
                    from <= g < groups.len() && (#[trigger] groups[g]).paths.len() >= 2 && path
                        == shard_path_of(root, groups[g].hash@);
                assert(groups[g].paths.len() >= 2);
                assert(is_master_path(root, groups, from + 1, path));
            }
        } else {
            let next = after_group_linked(world, root, group, paranoid);
            lemma_hard_linked_group_keeps_files_and_bytes(world.tree, root, group, path);
            lemma_linked_run_keeps_every_file(next, root, groups, paranoid, from + 1, path);
            if is_master_path(root, groups, from, path) {
                let g = choose|g: int|
                    from <= g < groups.len() && (#[trigger] groups[g]).paths.len() >= 2 && path
                        == shard_path_of(root, groups[g].hash@);
                if g > from {
                    assert(groups[g].paths.len() >= 2);
                    assert(is_master_path(root, groups, from + 1, path));
                }
            }
            if path == shard_path_of(root, group.hash@) {
                assert(groups[from].paths.len() >= 2);
                assert(is_master_path(root, groups, from, path));
            }
            if is_master_path(root, groups, from + 1, path) {
                let g = choose|g: int|
                    from + 1 <= g < groups.len() && (#[trigger] groups[g]).paths.len() >= 2
                        && path == shard_path_of(root, groups[g].hash@);
                assert(groups[g].paths.len() >= 2);
                assert(is_master_path(root, groups, from, path));
            }
        }
    } else {
        if is_master_path(root, groups, from, path) {
            let g = choose|g: int|
                from <= g < groups.len() && (#[trigger] groups[g]).paths.len() >= 2 && path
                    == shard_path_of(root, groups[g].hash@);
        }
    }
}

proof fn lemma_members_linked_add_no_staged(
    tree: Tree,
    vault: Seq<char>,
    paths: Seq<Seq<char>>,
    from: int,
    path: Seq<char>,
)
    requires
        0 <= from <= paths.len(),
        fit_for_links(tree, vault, paths, from),
        !is_temp(vault),
        is_temp(path),
    ensures
        members_linked(tree, vault, paths, from).has(path) ==> tree.has(path),
    decreases paths.len() - from,
{
    if from < paths.len() {
        let next = replaced_by_hard_link(tree, vault, paths[from]);
        lemma_fit_for_next_link(tree, vault, paths, from);
        lemma_members_linked_add_no_staged(next, vault, paths, from + 1, path);
    }
}

/// A run that makes hard links leaves no staged file behind: a staging
/// name that is in the tree after the run was there before it.
pub proof fn lemma_linked_run_leaves_no_staged_file(
    world: World,
    root: Seq<char>,
    groups: Seq<GroupView>,
    paranoid: bool,
    from: int,
    path: Seq<char>,
)
    requires
        0 <= from,
        groups_are_ready_for_links(world.tree, root, groups, paranoid, from),
        is_temp(path),
    ensures
        after_groups_linked(world, root, groups, paranoid, from).tree.has(path)
            ==> world.tree.has(path),
    decreases groups.len() - from,
{
    if from < groups.len() {
        let group = groups[from];
        if group.paths.len() < 2 {
            lemma_linked_run_leaves_no_staged_file(world, root, groups, paranoid, from + 1, path);
        } else {
            let vault = shard_path_of(root, group.hash@);
            let master = group.paths[0];
            let tree1 = taken_in(world.tree, master, vault);
            let tree2 = Tree {
                names: tree1.names.remove(temp_of(master)).insert(master, tree1.names[vault]),
                ..tree1
            };
            let next = after_group_linked(world, root, group, paranoid);
            assert(world.tree.has(master) && !is_temp(master));
            lemma_moved_tree_is_fit(world.tree, root, group);
            lemma_members_linked_add_no_staged(tree2, vault, group.paths, 1, path);
            assert(tree2.has(path) ==> world.tree.has(path));
            lemma_linked_run_leaves_no_staged_file(next, root, groups, paranoid, from + 1, path);
        }
    }
}

/// A run that makes hard links leaves alone what it was not given: a file
/// that is in no group has, after the run, the inode number it had and
/// reads as it read before.
pub proof fn lemma_linked_run_leaves_other_files(
    world: World,
    root: Seq<char>,
    groups: Seq<GroupView>,
    paranoid: bool,
    from: int,
    path: Seq<char>,
)
    requires
        0 <= from,
        groups_are_ready_for_links(world.tree, root, groups, paranoid, from),
        world.tree.has(path),
        !is_temp(path),
        is_in_no_group(groups, from, path),
    ensures
        after_groups_linked(world, root, groups, paranoid, from).tree.has(path),
        after_groups_linked(world, root, groups, paranoid, from).tree.names[path]
            == world.tree.names[path],
        after_groups_linked(world, root, groups, paranoid, from).tree.inode(path).content
            == world.tree.inode(path).content,
    decreases groups.len() - from,
{
    if from < groups.len() {
        let group = groups[from];
        assert(is_in_no_group(groups, from + 1, path));
        if group.paths.len() < 2 {
            lemma_linked_run_leaves_other_files(world, root, groups, paranoid, from + 1, path);
        } else {
            let next = after_group_linked(world, root, group, paranoid);
            assert(!group.paths.contains(path));
            lemma_hard_linked_group_keeps_files_and_bytes(world.tree, root, group, path);
            lemma_linked_run_leaves_other_files(next, root, groups, paranoid, from + 1, path);
        }
    }
}

/// A run that makes hard links keeps the bytes of every file: a file of a
/// group that had the bytes of the group's first file, as every true
/// duplicate has, reads after the run as it read before.
pub proof fn lemma_linked_run_keeps_bytes(
    world: World,
    root: Seq<char>,
    groups: Seq<GroupView>,
    paranoid: bool,
    from: int,
    g: int,
    i: int,
)
    requires
        0 <= from <= g < groups.len(),
        groups_are_ready_for_links(world.tree, root, groups, paranoid, from),
        groups_share_no_file(groups),
        groups[g].paths.len() >= 2,
        0 <= i < groups[g].paths.len(),
        world.tree.has(groups[g].paths[i]),
        world.tree.has(groups[g].paths[0]),
        !is_temp(groups[g].paths[i]),
        !is_temp(groups[g].paths[0]),
        world.tree.inode(groups[g].paths[i]).content == world.tree.inode(
            groups[g].paths[0],
        ).content,
    ensures
        after_groups_linked(world, root, groups, paranoid, from).tree.has(groups[g].paths[i]),
        after_groups_linked(world, root, groups, paranoid, from).tree.inode(
            groups[g].paths[i],
        ).content == world.tree.inode(groups[g].paths[i]).content,
    decreases g - from,
{
    let path = groups[g].paths[i];
    let first = groups[g].paths[0];
    let group = groups[from];
    if from < g {
        if group.paths.len() < 2 {
            lemma_linked_run_keeps_bytes(world, root, groups, paranoid, from + 1, g, i);
        } else {
            let next = after_group_linked(world, root, group, paranoid);
            assert(!groups[from].paths.contains(groups[g].paths[i]));
            assert(!groups[from].paths.contains(groups[g].paths[0]));
            lemma_hard_linked_group_keeps_files_and_bytes(world.tree, root, group, path);
            lemma_hard_linked_group_keeps_files_and_bytes(world.tree, root, group, first);
            lemma_linked_run_keeps_bytes(next, root, groups, paranoid, from + 1, g, i);
        }
    } else {
        let next = after_group_linked(world, root, group, paranoid);
        assert(group.paths.contains(path)) by {
            assert(group.paths[i] == path);
        }
        lemma_hard_linked_group_keeps_files_and_bytes(world.tree, root, group, path);
        assert forall|h: int| g + 1 <= h < groups.len() implies !(#[trigger] groups[h]).paths.contains(
            path,
        ) by {
            assert(!groups[h].paths.contains(groups[g].paths[i]));
        }
        assert(is_in_no_group(groups, g + 1, path));
        lemma_linked_run_leaves_other_files(next, root, groups, paranoid, g + 1, path);
    }
}

} // verus!
