//! What the vault's protocols do to a file tree: ingest and removal, run
//! on the model of the tree.

use vstd::prelude::*;
use crate::model::{ends, lemma_ends_after_round, lemma_ends_now, round, Tree};
use crate::paths::{is_temp, lemma_temp_of_is_temp, temp_of, temp_suffix, TempCleanupView};
use crate::types::{hex_digits, hex_of, lemma_hex_is_ascii};
use crate::requests::{rebinds, FsReplyView, FsRequestView, StepView};
use crate::vault::{
    ingest_resume, ingest_start, ingest_stage, removal_resume, removal_start, shard_path_of,
    IngestJobView, IngestPhase, IngestStepView, RemovalJobView, RemovalPhase, RemovalStepView,
    VaultError,
};

verus! {

/// The ingest as a protocol.
pub open spec fn ingest_machine() -> spec_fn(IngestJobView, FsReplyView) -> IngestStepView {
    |job: IngestJobView, reply: FsReplyView| ingest_resume(job, reply)
}

/// The removal as a protocol.
pub open spec fn removal_machine() -> spec_fn(RemovalJobView, FsReplyView) -> RemovalStepView {
    |job: RemovalJobView, reply: FsReplyView| removal_resume(job, reply)
}

/// The step keeps to the staging discipline: the ingest works towards
/// `dest` from another path, with the staging name of `dest`, and the
/// only request that touches the name `dest` is the rename of the staged
/// file onto it.
pub open spec fn ingest_step_is_atomic(step: IngestStepView, dest: Seq<char>) -> bool {
    match step {
        StepView::Ask(job, request) => {
            &&& job.dest == dest
            &&& job.src != dest
            &&& job.temp == temp_of(dest)
            &&& rebinds(request, dest) ==> request == (FsRequestView::Rename {
                from: temp_of(dest),
                to: dest,
            })
        },
        StepView::Finish(_) => true,
    }
}

/// An ingest begins under the staging discipline.
pub proof fn lemma_ingest_begins_atomic(root: Seq<char>, hash: Seq<u8>, src: Seq<char>)
    requires
        src != shard_path_of(root, hash),
    ensures
        ingest_step_is_atomic(ingest_start(root, hash, src), shard_path_of(root, hash)),
{
}

/// An ingest stays under the staging discipline, whatever the replies: a
/// master appears at its path only by the rename of a complete staged
/// file, so the vault never shows a file that is written in part.
pub proof fn lemma_ingest_stays_atomic(job: IngestJobView, request: FsRequestView, reply: FsReplyView)
    requires
        ingest_step_is_atomic(StepView::Ask(job, request), job.dest),
    ensures
        ingest_step_is_atomic(ingest_resume(job, reply), job.dest),
{
    lemma_temp_of_is_temp(job.dest);
}

/// The tree after the file `src` has been moved to `dest`: the file has
/// the name `dest` in place of the name `src`, a stale staged file of
/// `dest` is gone, and every inode is as it was.
pub open spec fn taken_in(tree: Tree, src: Seq<char>, dest: Seq<char>) -> Tree {
    Tree {
        names: tree.names.remove(temp_of(dest)).remove(src).insert(dest, tree.names[src]),
        ..tree
    }
}

/// The path of a master is no staging name: it ends with a hexadecimal
/// digit, and the staging suffix does not.
pub proof fn lemma_master_path_is_no_staging_name(root: Seq<char>, hash: Seq<u8>)
    requires
        hash.len() == 32,
    ensures
        !is_temp(shard_path_of(root, hash)),
{
    let path = shard_path_of(root, hash);
    let hex = hex_of(hash);
    lemma_hex_is_ascii(hash);
    assert(hex.len() == 64);
    assert(path.len() >= 64);
    assert(path.last() == hex.last());
    assert(hex_digits().contains(hex[63]));
    let digit = choose|k: int| 0 <= k < hex_digits().len() && hex_digits()[k] == hex[63];
    assert(hex_digits()[digit] != 'p');
    if is_temp(path) {
        let tail = path.subrange(path.len() - 12, path.len() as int);
        assert(tail[11] == path.last());
        assert(temp_suffix()[11] == 'p');
    }
}

/// A digest whose master is in the vault is not taken in again: the
/// ingest ends at once, and the tree is as it was.
pub proof fn lemma_ingest_keeps_master(tree: Tree, root: Seq<char>, hash: Seq<u8>, src: Seq<char>)
    requires
        tree.has(shard_path_of(root, hash)),
    ensures
        ends(ingest_machine(), ingest_start(root, hash, src), tree, Ok(()), tree),
{
    let machine = ingest_machine();
    let start = ingest_start(root, hash, src);
    assert(round(machine, start, tree) == (IngestStepView::Finish(Ok(())), tree));
    lemma_ends_now(machine, Ok(()), tree);
    lemma_ends_after_round(machine, start, tree, Ok(()), tree);
}

/// A file whose digest has no master yet becomes the master: the ingest
/// moves the file itself to the master's path, so that its old name is
/// gone and its inode, with its bytes, is the master's.
pub proof fn lemma_ingest_moves_file(tree: Tree, root: Seq<char>, hash: Seq<u8>, src: Seq<char>)
    requires
        tree.has(src),
        !tree.has(shard_path_of(root, hash)),
        src != temp_of(shard_path_of(root, hash)),
    ensures
        ends(
            ingest_machine(),
            ingest_start(root, hash, src),
            tree,
            Ok(()),
            taken_in(tree, src, shard_path_of(root, hash)),
        ),
        taken_in(tree, src, shard_path_of(root, hash)).inode(shard_path_of(root, hash))
            == tree.inode(src),
        !taken_in(tree, src, shard_path_of(root, hash)).has(src),
{
    let machine = ingest_machine();
    let dest = shard_path_of(root, hash);
    let temp = temp_of(dest);
    let after = taken_in(tree, src, dest);
    let result = Ok::<(), VaultError>(());
    let start = ingest_start(root, hash, src);
    let job = start->Ask_0;
    let making = StepView::Ask(
        IngestJobView { phase: IngestPhase::MakeDirs, ..job },
        FsRequestView::CreateDirAll { path: job.dir },
    );
    let probing = StepView::Ask(
        IngestJobView { phase: IngestPhase::ProbeTemp, ..job },
        FsRequestView::Exists { path: temp },
    );
    let tree0 = tree.without(temp);
    let staged = IngestJobView {
        guard: Some(TempCleanupView { path: temp, armed: true }),
        phase: IngestPhase::Stage,
        ..job
    };
    let staging = StepView::Ask(staged, FsRequestView::Rename { from: src, to: temp });
    let tree1 = tree0.renamed(src, temp);
    let publishing = StepView::Ask(
        IngestJobView { phase: IngestPhase::Publish, ..staged },
        FsRequestView::Rename { from: temp, to: dest },
    );
    lemma_temp_of_is_temp(dest);
    assert(round(machine, start, tree) == (making, tree));
    assert(round(machine, making, tree) == (probing, tree));
    assert(round(machine, staging, tree0) == (publishing, tree1));
    assert(tree1.renamed(temp, dest).names =~= after.names);
    assert(round(machine, publishing, tree1) == (IngestStepView::Finish(result), after));
    lemma_ends_now(machine, result, after);
    lemma_ends_after_round(machine, publishing, tree1, result, after);
    lemma_ends_after_round(machine, staging, tree0, result, after);
    if tree.has(temp) {
        let clearing = StepView::Ask(
            IngestJobView { phase: IngestPhase::ClearTemp, ..job },
            FsRequestView::RemoveFile { path: temp },
        );
        assert(round(machine, probing, tree) == (clearing, tree));
        assert(ingest_stage(IngestJobView { phase: IngestPhase::ClearTemp, ..job }) == staging);
        assert(round(machine, clearing, tree) == (staging, tree0));
        lemma_ends_after_round(machine, clearing, tree, result, after);
    } else {
        assert(tree.names.remove(temp) =~= tree.names);
        assert(tree0 == tree);
        assert(ingest_stage(IngestJobView { phase: IngestPhase::ProbeTemp, ..job }) == staging);
        assert(round(machine, probing, tree) == (staging, tree));
    }
    lemma_ends_after_round(machine, probing, tree, result, after);
    lemma_ends_after_round(machine, making, tree, result, after);
    lemma_ends_after_round(machine, start, tree, result, after);
}

/// Removing a master takes its name out of the tree and changes nothing
/// else; where there is no master, nothing changes.
pub proof fn lemma_removal_removes_master(tree: Tree, root: Seq<char>, hash: Seq<u8>)
    ensures
        ends(
            removal_machine(),
            removal_start(root, hash),
            tree,
            Ok(()),
            tree.without(shard_path_of(root, hash)),
        ),
{
    let machine = removal_machine();
    let dest = shard_path_of(root, hash);
    let after = tree.without(dest);
    let result = Ok::<(), VaultError>(());
    let start = removal_start(root, hash);
    let job = start->Ask_0;
    if tree.has(dest) {
        let removing = StepView::Ask(
            RemovalJobView { phase: RemovalPhase::RemoveMaster, ..job },
            FsRequestView::RemoveFile { path: dest },
        );
        let probing = StepView::Ask(
            RemovalJobView { phase: RemovalPhase::ProbeInner, ..job },
            FsRequestView::IsDirEmpty { path: job.inner },
        );
        assert(round(machine, start, tree) == (removing, tree));
        assert(round(machine, removing, tree) == (probing, after));
        assert(round(machine, probing, after) == (RemovalStepView::Finish(result), after));
        lemma_ends_now(machine, result, after);
        lemma_ends_after_round(machine, probing, after, result, after);
        lemma_ends_after_round(machine, removing, tree, result, after);
    } else {
        assert(tree.names.remove(dest) =~= tree.names);
        assert(after == tree);
        assert(round(machine, start, tree) == (RemovalStepView::Finish(result), tree));
        lemma_ends_now(machine, result, tree);
    }
    lemma_ends_after_round(machine, start, tree, result, after);
}

} // verus!
