//! What indexing does to a world: one file of the tree.

use vstd::prelude::*;
use crate::hash_laws::{
    hash_machine, lemma_full_hash_is_digest_of_content, lemma_sparse_hash_is_digest_of_sample,
    sparse_sample,
};
use crate::hasher::{
    blake3_digest, full_hash_start, sparse_hash_start, sparse_mid, HashStepView, SPARSE_TOTAL,
};
use crate::model::{
    lemma_reaches_after_round, lemma_reaches_itself, lemma_reaches_on, lemma_relay, reaches,
    relays, world_round, Store, World,
};
use crate::pipeline::{
    index_hashing, index_resume, index_start, modified_of, IndexJobView, IndexPhase, IndexStepView,
    ReplyView, RequestView,
};
use crate::requests::StepView;
use crate::state::StoreRequestView;
use crate::types::FileMetadata;

verus! {

/// Indexing as a protocol.
pub open spec fn index_machine() -> spec_fn(IndexJobView, ReplyView) -> IndexStepView {
    |job: IndexJobView, reply: ReplyView| index_resume(job, reply)
}

/// How indexing stands at a step of the sparse hash: once that hash is
/// known, the full hash begins.
spec fn during_sparse(job: IndexJobView, step: HashStepView) -> IndexStepView {
    match step {
        StepView::Finish(Ok(_)) => index_hashing(job, full_hash_start(job.path), IndexPhase::Full),
        step => index_hashing(job, step, IndexPhase::Sparse),
    }
}

proof fn lemma_sparse_is_relayed(job: IndexJobView)
    ensures
        relays(index_machine(), hash_machine(), |step: HashStepView| during_sparse(job, step)),
{
}

proof fn lemma_full_is_relayed(job: IndexJobView)
    ensures
        relays(
            index_machine(),
            hash_machine(),
            |step: HashStepView| index_hashing(job, step, IndexPhase::Full),
        ),
{
}

/// The record that indexing writes for the file at `path`: its size, its
/// modification time in whole seconds, and the digest of all its bytes.
pub open spec fn record_of(world: World, path: Seq<char>) -> FileMetadata {
    FileMetadata {
        size: world.tree.stat(path).size,
        modified: modified_of(world.tree.stat(path)),
        hash: blake3_digest(world.tree.inode(path).content),
    }
}

/// A file whose inode is marked as a hard link to a master is passed
/// over: nothing is read of it and nothing is recorded.
pub proof fn lemma_vaulted_file_is_passed_over(path: Seq<char>, world: World)
    requires
        world.tree.has(path),
        world.store.vaulted.contains(world.tree.names[path]),
    ensures
        reaches(index_machine(), index_start(path), world, IndexStepView::Finish(None), world),
{
    let machine = index_machine();
    let start = index_start(path);
    let stat = world.tree.stat(path);
    let checking = StepView::Ask(
        IndexJobView { stat, phase: IndexPhase::CheckVaulted, ..start->Ask_0 },
        RequestView::Store(StoreRequestView::IsInodeVaulted { inode: stat.inode }),
    );
    let end = IndexStepView::Finish(None);
    assert(world_round(machine, start, world) == (checking, world));
    assert(world_round(machine, checking, world) == (end, world));
    lemma_reaches_itself(machine, end, world);
    lemma_reaches_after_round(machine, checking, world, end, world);
    lemma_reaches_after_round(machine, start, world, end, world);
}

/// Indexing a file of the tree ends with the digest of all the file's
/// bytes and records the file's size, modification time and digest under
/// its path. The tree, the rest of the store and the lines told are as
/// they were.
pub proof fn lemma_file_is_indexed(path: Seq<char>, world: World)
    requires
        world.tree.has(path),
        world.tree.inode(path).content.len() <= u64::MAX,
        !world.store.vaulted.contains(world.tree.names[path]),
    ensures
        reaches(
            index_machine(),
            index_start(path),
            world,
            IndexStepView::Finish(Some(blake3_digest(world.tree.inode(path).content))),
            World {
                store: Store {
                    files: world.store.files.insert(path, record_of(world, path)),
                    ..world.store
                },
                ..world
            },
        ),
{
    let machine = index_machine();
    let content = world.tree.inode(path).content;
    let digest = blake3_digest(content);
    let stat = world.tree.stat(path);
    let end = IndexStepView::Finish(Some(digest));
    let then = World {
        store: Store {
            files: world.store.files.insert(path, record_of(world, path)),
            ..world.store
        },
        ..world
    };
    let start = index_start(path);
    let job = IndexJobView { stat, phase: IndexPhase::CheckVaulted, ..start->Ask_0 };
    let checking = StepView::Ask(
        job,
        RequestView::Store(StoreRequestView::IsInodeVaulted { inode: stat.inode }),
    );
    assert(world_round(machine, start, world) == (checking, world));
    // The sparse hash, whose value is not kept.
    let sparse = sparse_hash_start(path, stat.size);
    let sampling = index_hashing(job, sparse, IndexPhase::Sparse);
    assert(world_round(machine, checking, world) == (sampling, world));
    let sampled = if stat.size <= SPARSE_TOTAL {
        digest
    } else {
        blake3_digest(sparse_sample(content, sparse_mid(stat.size) as int))
    };
    lemma_sparse_hash_is_digest_of_sample(world.tree, path);
    lemma_sparse_is_relayed(job);
    let wrap_sparse = |step: HashStepView| during_sparse(job, step);
    lemma_relay(machine, hash_machine(), wrap_sparse, sparse, world, Ok(sampled), world.tree);
    assert(wrap_sparse(sparse) == sampling);
    // The full hash.
    let full = full_hash_start(path);
    let hashing = index_hashing(job, full, IndexPhase::Full);
    assert(wrap_sparse(HashStepView::Finish(Ok(sampled))) == hashing);
    assert(World { tree: world.tree, ..world } == world);
    lemma_full_hash_is_digest_of_content(world.tree, path);
    lemma_full_is_relayed(job);
    let wrap_full = |step: HashStepView| index_hashing(job, step, IndexPhase::Full);
    lemma_relay(machine, hash_machine(), wrap_full, full, world, Ok(digest), world.tree);
    let hashed = index_hashing(job, HashStepView::Finish(Ok(digest)), IndexPhase::Full);
    assert(wrap_full(full) == hashing);
    assert(wrap_full(HashStepView::Finish(Ok(digest))) == hashed);
    // The record.
    let writing = StepView::Ask(
        IndexJobView {
            hash: Some(digest),
            hashing: None,
            phase: IndexPhase::Upsert,
            ..job
        },
        RequestView::Store(
            StoreRequestView::UpsertFile { path, metadata: record_of(world, path) },
        ),
    );
    assert(world_round(machine, hashed, world) == (writing, world));
    assert(world_round(machine, writing, world) == (end, then));
    lemma_reaches_itself(machine, end, then);
    lemma_reaches_after_round(machine, writing, world, end, then);
    lemma_reaches_after_round(machine, hashed, world, end, then);
    lemma_reaches_on(machine, hashing, world, hashed, world, end, then);
    lemma_reaches_on(machine, sampling, world, hashing, world, end, then);
    lemma_reaches_after_round(machine, checking, world, end, then);
    lemma_reaches_after_round(machine, start, world, end, then);
}

} // verus!
