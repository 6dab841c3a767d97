//! What the link engine does to a file tree: the link jobs, run on the
//! model of the tree.

use vstd::prelude::*;
use crate::dedupe::{
    link_begin, link_fill, link_next_attr, link_next_value, link_resume, replace_start,
    restore_start, LinkError, LinkJobView, LinkPhase, LinkStepView, LinkType,
};
use crate::model::{
    attr_names, attr_put, attr_put_all, ends, lemma_attr_index_of_own, lemma_attr_put_all_again,
    lemma_attr_put_all_rebuilds,
    lemma_ends_after_round, lemma_ends_now, round, Inode, Tree,
};
use crate::paths::{lemma_temp_of_is_temp, temp_of, TempCleanupView};
use crate::requests::{rebinds, FsReplyView, FsRequestView, StepView, XattrView};

verus! {

/// The link job as a protocol.
pub open spec fn link_machine() -> spec_fn(LinkJobView, FsReplyView) -> LinkStepView {
    |job: LinkJobView, reply: FsReplyView| link_resume(job, reply)
}

/// The step keeps to the staging discipline: the job works on `target`
/// with the staging name of `target`, and the only request that touches
/// the name `target` is the rename of the staged file onto it.
pub open spec fn link_step_is_atomic(step: LinkStepView, target: Seq<char>) -> bool {
    match step {
        StepView::Ask(job, request) => {
            &&& job.target == target
            &&& job.temp == temp_of(target)
            &&& rebinds(request, target) ==> request == (FsRequestView::Rename {
                from: temp_of(target),
                to: target,
            })
        },
        StepView::Finish(_) => true,
    }
}

/// A link job begins under the staging discipline.
pub proof fn lemma_link_begins_atomic(master: Seq<char>, target: Seq<char>, allow: bool)
    ensures
        link_step_is_atomic(replace_start(master, target, allow), target),
        link_step_is_atomic(restore_start(target), target),
{
    lemma_temp_of_is_temp(target);
}

/// A link job stays under the staging discipline, whatever the replies:
/// the target is never removed, never copied over and never linked over;
/// its bytes change only when the finished staged file is renamed onto
/// it. So the target is at every moment either the old file or the new
/// one.
pub proof fn lemma_link_stays_atomic(job: LinkJobView, request: FsRequestView, reply: FsReplyView)
    requires
        link_step_is_atomic(StepView::Ask(job, request), job.target),
    ensures
        link_step_is_atomic(link_resume(job, reply), job.target),
{
    lemma_temp_of_is_temp(job.target);
}

/// The step carries the refusal: it ends with `ReflinkUnsupported`, or it
/// is a step of the cleanup before that end.
pub open spec fn carries_refusal(step: LinkStepView) -> bool {
    match step {
        StepView::Finish(result) => result == Err::<Option<LinkType>, LinkError>(
            LinkError::ReflinkUnsupported,
        ),
        StepView::Ask(job, _) => job.phase == LinkPhase::CleanupProbe(
            LinkError::ReflinkUnsupported,
        ) || job.phase == LinkPhase::CleanupRemove(LinkError::ReflinkUnsupported),
    }
}

/// A link job is refused with `ReflinkUnsupported` in one case only: the
/// refusal arises where an attempt to clone has failed and no hard link is
/// allowed, and nowhere else. No job begins with it, and a job that does
/// not carry it comes to carry it only from the look at what the failed
/// clone left behind.
pub proof fn lemma_refusal_has_one_cause(
    master: Seq<char>,
    target: Seq<char>,
    allow: bool,
    job: LinkJobView,
    request: FsRequestView,
    reply: FsReplyView,
)
    requires
        !carries_refusal(StepView::Ask(job, request)),
        carries_refusal(link_resume(job, reply)),
    ensures
        !carries_refusal(replace_start(master, target, allow)),
        !carries_refusal(restore_start(target)),
        job.phase == LinkPhase::ProbeFailedClone || job.phase == LinkPhase::DropFailedClone,
        !(job.allow_unsafe_hardlinks && job.master.is_some()),
{
}

/// The job looks at what a failed clone left behind only after an attempt
/// to clone has failed.
pub proof fn lemma_failed_clone_is_looked_at_after_failure(
    job: LinkJobView,
    request: FsRequestView,
    reply: FsReplyView,
)
    requires
        job.phase != LinkPhase::ProbeFailedClone,
        job.phase != LinkPhase::DropFailedClone,
        link_resume(job, reply) matches StepView::Ask(next, _) && (next.phase
            == LinkPhase::ProbeFailedClone || next.phase == LinkPhase::DropFailedClone),
    ensures
        job.phase == LinkPhase::Reflink,
        !(reply is Done),
{
}

/// The metadata of the file `source` can be recorded: the file is in the
/// tree, and it has no more attributes than can be counted.
pub open spec fn can_record(tree: Tree, source: Seq<char>) -> bool {
    &&& tree.well_formed()
    &&& tree.has(source)
    &&& tree.inode(source).xattrs.len() <= usize::MAX
}

/// The tree can be the scene of a link job on `target`: the target's
/// metadata can be recorded, and there is an inode number left for a new
/// file.
pub open spec fn can_relink(tree: Tree, target: Seq<char>) -> bool {
    can_record(tree, target) && tree.next < u64::MAX
}

/// The tree after `target` has been replaced by a new file with the bytes
/// `content`: the new file has a new inode and the target's old
/// permission bits, modification time and attributes; the staging name is
/// gone; every other name and every other inode is as it was.
pub open spec fn replaced_by_new_file(tree: Tree, target: Seq<char>, content: Seq<u8>) -> Tree {
    Tree {
        names: tree.names.remove(temp_of(target)).insert(target, tree.next),
        inodes: tree.inodes.insert(tree.next, Inode { content, ..tree.inode(target) }),
        next: (tree.next + 1) as u64,
        ..tree
    }
}

/// The tree after `target` has become a second name of the inode of
/// `master`: the inode has the target's old permission bits and
/// modification time, and the target's old attributes have been set on it;
/// the staging name is gone; every other name and every other inode is as
/// it was.
pub open spec fn replaced_by_hard_link(tree: Tree, master: Seq<char>, target: Seq<char>) -> Tree {
    let old = tree.inode(target);
    let shared = tree.inode(master);
    Tree {
        names: tree.names.remove(temp_of(target)).insert(target, tree.names[master]),
        inodes: tree.inodes.insert(
            tree.names[master],
            Inode {
                content: shared.content,
                mode: old.mode,
                mtime_seconds: old.mtime_seconds,
                mtime_nanos: old.mtime_nanos,
                xattrs: attr_put_all(shared.xattrs, old.xattrs, 0),
            },
        ),
        ..tree
    }
}

/// The job on `target` when the metadata and attributes of `source` have
/// been recorded.
spec fn recorded(
    master: Option<Seq<char>>,
    target: Seq<char>,
    source: Seq<char>,
    allow: bool,
    tree: Tree,
) -> LinkJobView {
    let xattrs = tree.inode(source).xattrs;
    LinkJobView {
        master,
        target,
        temp: temp_of(target),
        allow_unsafe_hardlinks: allow,
        guard: None,
        source,
        stat: tree.stat(source),
        names: attr_names(xattrs),
        xattrs,
        cursor: xattrs.len() as usize,
        made: None,
        phase: LinkPhase::ProbeTemp,
    }
}

proof fn lemma_record_loop(
    job: LinkJobView,
    tree: Tree,
    result: Result<Option<LinkType>, LinkError>,
    after: Tree,
)
    requires
        can_record(tree, job.source),
        job.names == attr_names(tree.inode(job.source).xattrs),
        job.cursor <= job.names.len(),
        job.xattrs == tree.inode(job.source).xattrs.subrange(0, job.cursor as int),
        ends(
            link_machine(),
            StepView::Ask(
                LinkJobView {
                    xattrs: tree.inode(job.source).xattrs,
                    cursor: job.names.len() as usize,
                    phase: LinkPhase::ProbeTemp,
                    ..job
                },
                FsRequestView::Exists { path: job.temp },
            ),
            tree,
            result,
            after,
        ),
    ensures
        ends(link_machine(), link_next_value(job), tree, result, after),
    decreases job.names.len() - job.cursor,
{
    let all = tree.inode(job.source).xattrs;
    if job.cursor < job.names.len() {
        let i = job.cursor as int;
        let asking = LinkJobView { phase: LinkPhase::ReadValue, ..job };
        let next = LinkJobView {
            xattrs: job.xattrs.push(XattrView { name: job.names[i], value: all[i].value }),
            cursor: (job.cursor + 1) as usize,
            ..asking
        };
        lemma_attr_index_of_own(all, i, 0);
        assert(job.names[i] == all[i].name);
        assert(next.xattrs =~= all.subrange(0, i + 1));
        assert(round(link_machine(), link_next_value(job), tree) == (link_next_value(next), tree));
        assert(LinkJobView {
            xattrs: all,
            cursor: next.names.len() as usize,
            phase: LinkPhase::ProbeTemp,
            ..next
        } == LinkJobView {
            xattrs: all,
            cursor: job.names.len() as usize,
            phase: LinkPhase::ProbeTemp,
            ..job
        });
        lemma_record_loop(next, tree, result, after);
        lemma_ends_after_round(link_machine(), link_next_value(job), tree, result, after);
    } else {
        assert(job.xattrs =~= all);
    }
}

/// A link job that ends once the attributes of its source are recorded
/// ends so from the listing of the attributes on: recording changes
/// nothing in the tree.
proof fn lemma_listing(
    job: LinkJobView,
    tree: Tree,
    result: Result<Option<LinkType>, LinkError>,
    after: Tree,
)
    requires
        can_record(tree, job.source),
        job.temp == temp_of(job.target),
        job.guard.is_none(),
        job.made.is_none(),
        job.xattrs == Seq::<XattrView>::empty(),
        ends(
            link_machine(),
            StepView::Ask(
                recorded(job.master, job.target, job.source, job.allow_unsafe_hardlinks, tree),
                FsRequestView::Exists { path: job.temp },
            ),
            tree,
            result,
            after,
        ),
    ensures
        ends(
            link_machine(),
            crate::dedupe::link_list(job, tree.stat(job.source)),
            tree,
            result,
            after,
        ),
{
    let machine = link_machine();
    let listing = crate::dedupe::link_list(job, tree.stat(job.source));
    let job1 = listing->Ask_0;
    let all = tree.inode(job.source).xattrs;
    let job2 = LinkJobView { names: attr_names(all), cursor: 0, ..job1 };
    assert(round(machine, listing, tree) == (link_next_value(job2), tree));
    assert(job2.xattrs =~= all.subrange(0, 0));
    assert(LinkJobView {
        xattrs: all,
        cursor: job2.names.len() as usize,
        phase: LinkPhase::ProbeTemp,
        ..job2
    } == recorded(job.master, job.target, job.source, job.allow_unsafe_hardlinks, tree));
    lemma_record_loop(job2, tree, result, after);
    lemma_ends_after_round(machine, listing, tree, result, after);
}

/// A link job on a target that is there ends as it ends once the target
/// is recorded.
proof fn lemma_recording(
    master: Option<Seq<char>>,
    target: Seq<char>,
    allow: bool,
    tree: Tree,
    result: Result<Option<LinkType>, LinkError>,
    after: Tree,
)
    requires
        can_record(tree, target),
        ends(
            link_machine(),
            StepView::Ask(
                recorded(master, target, target, allow, tree),
                FsRequestView::Exists { path: temp_of(target) },
            ),
            tree,
            result,
            after,
        ),
    ensures
        ends(link_machine(), link_begin(master, target, allow), tree, result, after),
{
    let machine = link_machine();
    let begin = link_begin(master, target, allow);
    let job = begin->Ask_0;
    assert(round(machine, begin, tree) == (crate::dedupe::link_list(job, tree.stat(target)), tree));
    lemma_listing(job, tree, result, after);
    lemma_ends_after_round(machine, begin, tree, result, after);
}

/// A link job that ends from the filling of the staging name on, on the
/// tree without a stale staged file, ends so once the target is recorded.
proof fn lemma_clearing(
    job: LinkJobView,
    tree: Tree,
    result: Result<Option<LinkType>, LinkError>,
    after: Tree,
)
    requires
        job.phase == LinkPhase::ProbeTemp,
        ends(link_machine(), link_fill(job), tree.without(job.temp), result, after),
    ensures
        ends(
            link_machine(),
            StepView::Ask(job, FsRequestView::Exists { path: job.temp }),
            tree,
            result,
            after,
        ),
{
    let machine = link_machine();
    let probing = StepView::Ask(job, FsRequestView::Exists { path: job.temp });
    if tree.has(job.temp) {
        let clearing = StepView::Ask(
            LinkJobView { phase: LinkPhase::ClearTemp, ..job },
            FsRequestView::RemoveFile { path: job.temp },
        );
        assert(round(machine, probing, tree) == (clearing, tree));
        assert(link_fill(LinkJobView { phase: LinkPhase::ClearTemp, ..job }) == link_fill(job));
        assert(round(machine, clearing, tree) == (link_fill(job), tree.without(job.temp)));
        lemma_ends_after_round(machine, clearing, tree, result, after);
        lemma_ends_after_round(machine, probing, tree, result, after);
    } else {
        assert(tree.names.remove(job.temp) =~= tree.names);
        assert(tree.without(job.temp) == tree);
        assert(round(machine, probing, tree) == (link_fill(job), tree));
        lemma_ends_after_round(machine, probing, tree, result, after);
    }
}

/// Putting the recorded attributes back, from the cursor on, ends the job
/// with the link that was made, and sets the attributes on the target one
/// after the other.
proof fn lemma_attrs_put_back(job: LinkJobView, tree: Tree)
    requires
        tree.has(job.target),
        tree.inodes.contains_key(tree.names[job.target]),
        job.cursor <= job.xattrs.len() <= usize::MAX,
    ensures
        ends(
            link_machine(),
            link_next_attr(job),
            tree,
            Ok(job.made),
            tree.with_inode(
                job.target,
                Inode {
                    xattrs: attr_put_all(
                        tree.inode(job.target).xattrs,
                        job.xattrs,
                        job.cursor as int,
                    ),
                    ..tree.inode(job.target)
                },
            ),
        ),
    decreases job.xattrs.len() - job.cursor,
{
    let machine = link_machine();
    let inode = tree.inode(job.target);
    let after = tree.with_inode(
        job.target,
        Inode { xattrs: attr_put_all(inode.xattrs, job.xattrs, job.cursor as int), ..inode },
    );
    if job.cursor < job.xattrs.len() {
        let i = job.cursor as int;
        let put = Inode {
            xattrs: attr_put(inode.xattrs, job.xattrs[i].name, job.xattrs[i].value),
            ..inode
        };
        let tree1 = tree.with_inode(job.target, put);
        let next = LinkJobView {
            cursor: (job.cursor + 1) as usize,
            phase: LinkPhase::WriteValue,
            ..job
        };
        assert(round(machine, link_next_attr(job), tree) == (link_next_attr(next), tree1));
        lemma_attrs_put_back(next, tree1);
        assert(tree1.inode(job.target) == put);
        assert(tree1.with_inode(
            job.target,
            Inode { xattrs: attr_put_all(put.xattrs, job.xattrs, i + 1), ..put },
        ).inodes =~= after.inodes);
        lemma_ends_after_round(machine, link_next_attr(job), tree, Ok(job.made), after);
    } else {
        assert(after.inodes =~= tree.inodes);
        assert(after == tree);
        lemma_ends_now(machine, Ok(job.made), tree);
    }
}

/// From the renaming of the staged file onto the target on, the job ends
/// with the link that was made; the target then has the inode that was
/// staged, with the recorded permission bits and modification time, and
/// with the recorded attributes set on it.
proof fn lemma_swapping(job: LinkJobView, made: Option<LinkType>, tree: Tree)
    requires
        tree.well_formed(),
        tree.has(job.temp),
        job.temp != job.target,
        job.xattrs.len() <= usize::MAX,
    ensures
        ends(
            link_machine(),
            crate::dedupe::link_swap(job, made),
            tree,
            Ok(made),
            swapped(job, tree),
        ),
{
    let machine = link_machine();
    let swapping = crate::dedupe::link_swap(job, made);
    let job1 = LinkJobView { made, phase: LinkPhase::Swap, ..job };
    let tree1 = tree.renamed(job.temp, job.target);
    let job2 = LinkJobView {
        guard: crate::paths::disarmed(job1.guard),
        phase: LinkPhase::Permissions,
        ..job1
    };
    let step2 = StepView::Ask(
        job2,
        FsRequestView::SetPermissions { path: job.target, mode: job.stat.mode },
    );
    assert(round(machine, swapping, tree) == (step2, tree1));
    let inode = tree.inode(job.temp);
    assert(tree1.inode(job.target) == inode);
    let tree2 = tree1.with_inode(job.target, Inode { mode: job.stat.mode, ..inode });
    let job3 = LinkJobView { phase: LinkPhase::Mtime, ..job2 };
    let step3 = StepView::Ask(
        job3,
        FsRequestView::SetMtime {
            path: job.target,
            seconds: job.stat.mtime_seconds,
            nanos: job.stat.mtime_nanos,
        },
    );
    assert(round(machine, step2, tree1) == (step3, tree2));
    let dated = Inode {
        mode: job.stat.mode,
        mtime_seconds: job.stat.mtime_seconds,
        mtime_nanos: job.stat.mtime_nanos,
        ..inode
    };
    assert(tree2.inode(job.target) == Inode { mode: job.stat.mode, ..inode });
    let tree3 = tree2.with_inode(job.target, dated);
    let job4 = LinkJobView { cursor: 0, ..job3 };
    assert(round(machine, step3, tree2) == (link_next_attr(job4), tree3));
    assert(tree3.inode(job.target) == dated);
    lemma_attrs_put_back(job4, tree3);
    let after = tree3.with_inode(
        job.target,
        Inode { xattrs: attr_put_all(dated.xattrs, job.xattrs, 0), ..dated },
    );
    assert(after.inodes =~= swapped(job, tree).inodes);
    assert(after == swapped(job, tree));
    lemma_ends_after_round(machine, step3, tree2, Ok(made), after);
    lemma_ends_after_round(machine, step2, tree1, Ok(made), after);
    lemma_ends_after_round(machine, swapping, tree, Ok(made), after);
}

/// The tree after the staged file has been renamed onto the target and
/// the recorded metadata put back.
spec fn swapped(job: LinkJobView, tree: Tree) -> Tree {
    let inode = tree.inode(job.temp);
    Tree {
        names: tree.names.remove(job.temp).insert(job.target, tree.names[job.temp]),
        inodes: tree.inodes.insert(
            tree.names[job.temp],
            Inode {
                content: inode.content,
                mode: job.stat.mode,
                mtime_seconds: job.stat.mtime_seconds,
                mtime_nanos: job.stat.mtime_nanos,
                xattrs: attr_put_all(inode.xattrs, job.xattrs, 0),
            },
        ),
        ..tree
    }
}

/// What replacing a file by a new file keeps: the set of names other than
/// the staging name; for the target its permission bits, modification
/// time and attributes; and every other file as it was. The target's
/// inode is one that no file had before.
pub proof fn lemma_replaced_by_new_file_keeps(tree: Tree, target: Seq<char>, content: Seq<u8>)
    requires
        tree.well_formed(),
        tree.has(target),
    ensures
        ({
            let after = replaced_by_new_file(tree, target, content);
            let temp = temp_of(target);
            &&& after.names.dom() == tree.names.dom().remove(temp)
            &&& after.inode(target) == Inode { content, ..tree.inode(target) }
            &&& !tree.inodes.contains_key(after.names[target])
            &&& forall|path: Seq<char>|
                tree.has(path) && path != target && path != temp ==> after.has(path)
                    && after.names[path] == tree.names[path] && #[trigger] after.inode(path)
                    == tree.inode(path)
        }),
{
    let after = replaced_by_new_file(tree, target, content);
    lemma_temp_of_is_temp(target);
    assert(after.names.dom() =~= tree.names.dom().remove(temp_of(target)));
}

/// On a file system that makes clones, replacing `target` by a link to
/// `master` ends with a reflink. Afterwards the target is a new file with
/// the master's bytes and with the permission bits, modification time and
/// attributes that the target had; a stale staged file is gone; nothing
/// else has changed.
pub proof fn lemma_replace_makes_clone(tree: Tree, master: Seq<char>, target: Seq<char>, allow: bool)
    requires
        can_relink(tree, target),
        tree.cow,
        tree.has(master),
        master != target,
        master != temp_of(target),
    ensures
        ends(
            link_machine(),
            replace_start(master, target, allow),
            tree,
            Ok(Some(LinkType::Reflink)),
            replaced_by_new_file(tree, target, tree.inode(master).content),
        ),
{
    let machine = link_machine();
    let temp = temp_of(target);
    let result = Ok(Some(LinkType::Reflink));
    let after = replaced_by_new_file(tree, target, tree.inode(master).content);
    let job = recorded(Some(master), target, target, allow, tree);
    let tree0 = tree.without(temp);
    let filling = LinkJobView {
        guard: Some(TempCleanupView { path: temp, armed: true }),
        phase: LinkPhase::Reflink,
        ..job
    };
    let tree1 = tree0.created(temp, tree.inode(master).content, tree.new_mode);
    lemma_temp_of_is_temp(target);
    assert(tree0.inode(master) == tree.inode(master));
    assert(round(machine, link_fill(job), tree0) == (
        crate::dedupe::link_swap(filling, Some(LinkType::Reflink)),
        tree1,
    ));
    lemma_swapping(filling, Some(LinkType::Reflink), tree1);
    let old = tree.inode(target);
    lemma_attr_put_all_rebuilds(old.xattrs, 0);
    assert(old.xattrs.subrange(0, 0) =~= Seq::<XattrView>::empty());
    assert(swapped(filling, tree1).names =~= after.names);
    assert(swapped(filling, tree1).inodes =~= after.inodes);
    assert(swapped(filling, tree1) == after);
    lemma_ends_after_round(machine, link_fill(job), tree0, result, after);
    lemma_clearing(job, tree, result, after);
    lemma_recording(Some(master), target, allow, tree, result, after);
}

/// On a file system that makes no clones, and with hard links not
/// allowed, replacing `target` is refused with `ReflinkUnsupported`, and
/// nothing has changed but that a stale staged file is gone.
pub proof fn lemma_replace_is_refused(tree: Tree, master: Seq<char>, target: Seq<char>)
    requires
        can_relink(tree, target),
        !tree.cow,
        master != target,
    ensures
        ends(
            link_machine(),
            replace_start(master, target, false),
            tree,
            Err(LinkError::ReflinkUnsupported),
            tree.without(temp_of(target)),
        ),
{
    let machine = link_machine();
    let temp = temp_of(target);
    let result = Err(LinkError::ReflinkUnsupported);
    let job = recorded(Some(master), target, target, false, tree);
    let after = tree.without(temp);
    let filling = LinkJobView {
        guard: Some(TempCleanupView { path: temp, armed: true }),
        phase: LinkPhase::Reflink,
        ..job
    };
    let probing = StepView::Ask(
        LinkJobView { phase: LinkPhase::ProbeFailedClone, ..filling },
        FsRequestView::Exists { path: temp },
    );
    let leaving = StepView::Ask(
        LinkJobView {
            phase: LinkPhase::CleanupProbe(LinkError::ReflinkUnsupported),
            ..filling
        },
        FsRequestView::Exists { path: temp },
    );
    assert(round(machine, link_fill(job), after) == (probing, after));
    assert(round(machine, probing, after) == (leaving, after));
    assert(round(machine, leaving, after) == (LinkStepView::Finish(result), after));
    lemma_ends_now(machine, result, after);
    lemma_ends_after_round(machine, leaving, after, result, after);
    lemma_ends_after_round(machine, probing, after, result, after);
    lemma_ends_after_round(machine, link_fill(job), after, result, after);
    lemma_clearing(job, tree, result, after);
    lemma_recording(Some(master), target, false, tree, result, after);
}

/// On a file system that makes no clones, and with hard links allowed,
/// replacing `target` ends with a hard link. Afterwards the target is a
/// second name of the master's inode, which has the permission bits and
/// modification time that the target had, and on which the target's
/// attributes have been set; a stale staged file is gone; nothing else
/// has changed.
pub proof fn lemma_replace_makes_hard_link(tree: Tree, master: Seq<char>, target: Seq<char>)
    requires
        can_relink(tree, target),
        !tree.cow,
        tree.has(master),
        master != target,
        master != temp_of(target),
    ensures
        ends(
            link_machine(),
            replace_start(master, target, true),
            tree,
            Ok(Some(LinkType::HardLink)),
            replaced_by_hard_link(tree, master, target),
        ),
        replaced_by_hard_link(tree, master, target).names[target] == tree.names[master],
        replaced_by_hard_link(tree, master, target).names.dom() == tree.names.dom().remove(
            temp_of(target),
        ),
{
    let machine = link_machine();
    let temp = temp_of(target);
    let result = Ok(Some(LinkType::HardLink));
    let after = replaced_by_hard_link(tree, master, target);
    let job = recorded(Some(master), target, target, true, tree);
    let tree0 = tree.without(temp);
    let filling = LinkJobView {
        guard: Some(TempCleanupView { path: temp, armed: true }),
        phase: LinkPhase::Reflink,
        ..job
    };
    let probing = StepView::Ask(
        LinkJobView { phase: LinkPhase::ProbeFailedClone, ..filling },
        FsRequestView::Exists { path: temp },
    );
    let linking = StepView::Ask(
        LinkJobView { phase: LinkPhase::HardLink, ..filling },
        FsRequestView::HardLink { from: master, to: temp },
    );
    let tree1 = Tree { names: tree0.names.insert(temp, tree0.names[master]), ..tree0 };
    lemma_temp_of_is_temp(target);
    assert(round(machine, link_fill(job), tree0) == (probing, tree0));
    assert(round(machine, probing, tree0) == (linking, tree0));
    let linked = LinkJobView { phase: LinkPhase::HardLink, ..filling };
    assert(round(machine, linking, tree0) == (
        crate::dedupe::link_swap(linked, Some(LinkType::HardLink)),
        tree1,
    ));
    lemma_swapping(linked, Some(LinkType::HardLink), tree1);
    assert(tree1.inode(temp) == tree.inode(master));
    assert(swapped(linked, tree1).names =~= after.names);
    assert(swapped(linked, tree1).inodes =~= after.inodes);
    assert(swapped(linked, tree1) == after);
    assert(after.names.dom() =~= tree.names.dom().remove(temp));
    lemma_ends_after_round(machine, linking, tree0, result, after);
    lemma_ends_after_round(machine, probing, tree0, result, after);
    lemma_ends_after_round(machine, link_fill(job), tree0, result, after);
    lemma_clearing(job, tree, result, after);
    lemma_recording(Some(master), target, true, tree, result, after);
}

/// A link job at a vacant path ends as it ends once the master is
/// recorded in the target's place.
proof fn lemma_finding_vacant(
    master: Seq<char>,
    target: Seq<char>,
    allow: bool,
    tree: Tree,
    result: Result<Option<LinkType>, LinkError>,
    after: Tree,
)
    requires
        !tree.has(target),
        can_record(tree, master),
        ends(
            link_machine(),
            StepView::Ask(
                recorded(Some(master), target, master, allow, tree),
                FsRequestView::Exists { path: temp_of(target) },
            ),
            tree,
            result,
            after,
        ),
    ensures
        ends(link_machine(), replace_start(master, target, allow), tree, result, after),
{
    let machine = link_machine();
    let begin = link_begin(Some(master), target, allow);
    let job = begin->Ask_0;
    let probing = StepView::Ask(
        LinkJobView { phase: LinkPhase::ProbeTarget, ..job },
        FsRequestView::Exists { path: target },
    );
    let turned = LinkJobView { source: master, phase: LinkPhase::StatMaster, ..job };
    let asking = LinkStepView::Ask(turned, FsRequestView::Stat { path: master });
    let listing = crate::dedupe::link_list(turned, tree.stat(master));
    assert(round(machine, begin, tree) == (probing, tree));
    assert(round(machine, probing, tree) == (asking, tree));
    assert(round(machine, asking, tree) == (listing, tree));
    lemma_listing(turned, tree, result, after);
    lemma_ends_after_round(machine, asking, tree, result, after);
    lemma_ends_after_round(machine, probing, tree, result, after);
    lemma_ends_after_round(machine, begin, tree, result, after);
}

/// The tree after a clone of `master` has been made at the vacant path
/// `target`: a new file with the master's bytes, permission bits,
/// modification time and attributes; a stale staged file is gone; nothing
/// else has changed.
pub open spec fn cloned_at_vacant_path(tree: Tree, master: Seq<char>, target: Seq<char>) -> Tree {
    Tree {
        names: tree.names.remove(temp_of(target)).insert(target, tree.next),
        inodes: tree.inodes.insert(tree.next, tree.inode(master)),
        next: (tree.next + 1) as u64,
        ..tree
    }
}

/// Where there is no file at the target's path, as at the old path of a
/// file that has just become the master, replacing makes the link at the
/// vacant path, with the master's metadata: a reflink, on a file system
/// that makes clones.
pub proof fn lemma_replace_clones_at_vacant_path(
    tree: Tree,
    master: Seq<char>,
    target: Seq<char>,
    allow: bool,
)
    requires
        can_relink(tree, master),
        tree.cow,
        !tree.has(target),
        master != temp_of(target),
    ensures
        ends(
            link_machine(),
            replace_start(master, target, allow),
            tree,
            Ok(Some(LinkType::Reflink)),
            cloned_at_vacant_path(tree, master, target),
        ),
{
    let machine = link_machine();
    let temp = temp_of(target);
    let result = Ok(Some(LinkType::Reflink));
    let after = cloned_at_vacant_path(tree, master, target);
    let job = recorded(Some(master), target, master, allow, tree);
    let tree0 = tree.without(temp);
    let filling = LinkJobView {
        guard: Some(TempCleanupView { path: temp, armed: true }),
        phase: LinkPhase::Reflink,
        ..job
    };
    let swapping = crate::dedupe::link_swap(filling, Some(LinkType::Reflink));
    let tree1 = tree0.created(temp, tree.inode(master).content, tree.new_mode);
    lemma_temp_of_is_temp(target);
    assert(tree0.inode(master) == tree.inode(master));
    assert(round(machine, link_fill(job), tree0) == (swapping, tree1));
    lemma_swapping(filling, Some(LinkType::Reflink), tree1);
    let old = tree.inode(master);
    lemma_attr_put_all_rebuilds(old.xattrs, 0);
    assert(old.xattrs.subrange(0, 0) =~= Seq::<XattrView>::empty());
    assert(swapped(filling, tree1).names =~= after.names);
    assert(swapped(filling, tree1).inodes =~= after.inodes);
    assert(swapped(filling, tree1) == after);
    lemma_ends_after_round(machine, link_fill(job), tree0, result, after);
    lemma_clearing(job, tree, result, after);
    lemma_finding_vacant(master, target, allow, tree, result, after);
}

/// Where there is no file at the target's path, on a file system that
/// makes no clones and with hard links allowed, replacing makes the
/// vacant path a second name of the master's inode, and changes nothing
/// else but that a stale staged file is gone.
pub proof fn lemma_replace_hard_links_at_vacant_path(tree: Tree, master: Seq<char>, target: Seq<char>)
    requires
        can_record(tree, master),
        !tree.cow,
        !tree.has(target),
        master != temp_of(target),
    ensures
        ends(
            link_machine(),
            replace_start(master, target, true),
            tree,
            Ok(Some(LinkType::HardLink)),
            Tree {
                names: tree.names.remove(temp_of(target)).insert(target, tree.names[master]),
                ..tree
            },
        ),
{
    let machine = link_machine();
    let temp = temp_of(target);
    let result = Ok(Some(LinkType::HardLink));
    let after = Tree { names: tree.names.remove(temp).insert(target, tree.names[master]), ..tree };
    let job = recorded(Some(master), target, master, true, tree);
    let tree0 = tree.without(temp);
    let filling = LinkJobView {
        guard: Some(TempCleanupView { path: temp, armed: true }),
        phase: LinkPhase::Reflink,
        ..job
    };
    let probing = StepView::Ask(
        LinkJobView { phase: LinkPhase::ProbeFailedClone, ..filling },
        FsRequestView::Exists { path: temp },
    );
    let linked = LinkJobView { phase: LinkPhase::HardLink, ..filling };
    let linking = StepView::Ask(linked, FsRequestView::HardLink { from: master, to: temp });
    let swapping = crate::dedupe::link_swap(linked, Some(LinkType::HardLink));
    let tree1 = Tree { names: tree0.names.insert(temp, tree0.names[master]), ..tree0 };
    lemma_temp_of_is_temp(target);
    assert(round(machine, link_fill(job), tree0) == (probing, tree0));
    assert(round(machine, probing, tree0) == (linking, tree0));
    assert(round(machine, linking, tree0) == (swapping, tree1));
    lemma_swapping(linked, Some(LinkType::HardLink), tree1);
    let old = tree.inode(master);
    assert(tree.inodes.contains_key(tree.names[master]));
    assert(tree1.inode(temp) == old);
    lemma_attr_put_all_again(old.xattrs, 0);
    assert(swapped(linked, tree1).names =~= after.names);
    assert(swapped(linked, tree1).inodes =~= after.inodes);
    assert(swapped(linked, tree1) == after);
    lemma_ends_after_round(machine, linking, tree0, result, after);
    lemma_ends_after_round(machine, probing, tree0, result, after);
    lemma_ends_after_round(machine, link_fill(job), tree0, result, after);
    lemma_clearing(job, tree, result, after);
    lemma_finding_vacant(master, target, true, tree, result, after);
}

/// Where there is no file at the target's path, on a file system that
/// makes no clones and with hard links not allowed, replacing is refused
/// with `ReflinkUnsupported`, and the path stays vacant.
pub proof fn lemma_replace_is_refused_at_vacant_path(tree: Tree, master: Seq<char>, target: Seq<char>)
    requires
        can_record(tree, master),
        !tree.cow,
        !tree.has(target),
    ensures
        ends(
            link_machine(),
            replace_start(master, target, false),
            tree,
            Err(LinkError::ReflinkUnsupported),
            tree.without(temp_of(target)),
        ),
{
    let machine = link_machine();
    let temp = temp_of(target);
    let result = Err(LinkError::ReflinkUnsupported);
    let job = recorded(Some(master), target, master, false, tree);
    let after = tree.without(temp);
    let filling = LinkJobView {
        guard: Some(TempCleanupView { path: temp, armed: true }),
        phase: LinkPhase::Reflink,
        ..job
    };
    let probing = StepView::Ask(
        LinkJobView { phase: LinkPhase::ProbeFailedClone, ..filling },
        FsRequestView::Exists { path: temp },
    );
    let leaving = StepView::Ask(
        LinkJobView {
            phase: LinkPhase::CleanupProbe(LinkError::ReflinkUnsupported),
            ..filling
        },
        FsRequestView::Exists { path: temp },
    );
    assert(round(machine, link_fill(job), after) == (probing, after));
    assert(round(machine, probing, after) == (leaving, after));
    assert(round(machine, leaving, after) == (LinkStepView::Finish(result), after));
    lemma_ends_now(machine, result, after);
    lemma_ends_after_round(machine, leaving, after, result, after);
    lemma_ends_after_round(machine, probing, after, result, after);
    lemma_ends_after_round(machine, link_fill(job), after, result, after);
    lemma_clearing(job, tree, result, after);
    lemma_finding_vacant(master, target, false, tree, result, after);
}

/// A hard link gives the master's inode one more name, the target, and
/// takes none away: a path other than the staging name is a name of the
/// master's inode afterwards exactly if it was one before or is the
/// target.
pub proof fn lemma_hard_link_adds_one_name(
    tree: Tree,
    master: Seq<char>,
    target: Seq<char>,
    path: Seq<char>,
)
    requires
        tree.has(master),
        master != temp_of(target),
        path != temp_of(target),
    ensures
        ({
            let after = replaced_by_hard_link(tree, master, target);
            after.has(path) && after.names[path] == tree.names[master] <==> tree.has(path)
                && tree.names[path] == tree.names[master] || path == target
        }),
{
}

/// Restoring `target` ends without an error. Afterwards the target is a
/// new file, with an inode of its own, with the bytes, permission bits,
/// modification time and attributes that the target had; a stale staged
/// file is gone; nothing else has changed.
pub proof fn lemma_restore_makes_own_copy(tree: Tree, target: Seq<char>)
    requires
        can_relink(tree, target),
    ensures
        ends(
            link_machine(),
            restore_start(target),
            tree,
            Ok(None),
            replaced_by_new_file(tree, target, tree.inode(target).content),
        ),
{
    let machine = link_machine();
    let temp = temp_of(target);
    let result = Ok(None);
    let old = tree.inode(target);
    let after = replaced_by_new_file(tree, target, old.content);
    let job = recorded(None, target, target, false, tree);
    let tree0 = tree.without(temp);
    let filling = LinkJobView {
        guard: Some(TempCleanupView { path: temp, armed: true }),
        phase: LinkPhase::CopyBytes,
        ..job
    };
    let tree1 = tree0.created(temp, old.content, tree.new_mode);
    lemma_temp_of_is_temp(target);
    assert(tree0.inode(target) == old);
    assert(round(machine, link_fill(job), tree0) == (
        crate::dedupe::link_swap(filling, None),
        tree1,
    ));
    lemma_swapping(filling, None, tree1);
    lemma_attr_put_all_rebuilds(old.xattrs, 0);
    assert(old.xattrs.subrange(0, 0) =~= Seq::<XattrView>::empty());
    assert(swapped(filling, tree1).names =~= after.names);
    assert(swapped(filling, tree1).inodes =~= after.inodes);
    assert(swapped(filling, tree1) == after);
    lemma_ends_after_round(machine, link_fill(job), tree0, result, after);
    lemma_clearing(job, tree, result, after);
    lemma_recording(None, target, false, tree, result, after);
}

} // verus!
