//! What hashing and comparing compute of the files of a tree: the jobs,
//! run on the model of the tree.

use vstd::prelude::*;
use crate::dedupe::{
    compare_resume, compare_start, CompareError, CompareJobView, CompareStepView, COMPARE_BUF,
};
use crate::hasher::{
    blake3_digest, deciding_extent, full_hash_start, hash_resume, sparse_end, sparse_hash_start,
    sparse_mid, HashJobView, HashPhase, HashStepView, FULL_BUF, SPARSE_CHUNK, SPARSE_TOTAL,
};
use crate::model::{ends, lemma_ends_after_round, lemma_ends_now, round, Tree};
use crate::requests::{Extent, FsReplyView, FsRequestView, StepView};

verus! {

/// The hashing job as a protocol.
pub open spec fn hash_machine() -> spec_fn(HashJobView, FsReplyView) -> HashStepView {
    |job: HashJobView, reply: FsReplyView| hash_resume(job, reply)
}

/// The comparison as a protocol.
pub open spec fn compare_machine() -> spec_fn(CompareJobView, FsReplyView) -> CompareStepView {
    |job: CompareJobView, reply: FsReplyView| compare_resume(job, reply)
}

/// The bytes that the sparse hash of `content` takes in: the first 4096
/// bytes, the 4096 bytes from `middle` on, and the last 4096 bytes.
pub open spec fn sparse_sample(content: Seq<u8>, middle: int) -> Seq<u8> {
    content.subrange(0, 4096) + content.subrange(middle, middle + 4096) + content.subrange(
        content.len() - 4096,
        content.len() as int,
    )
}

proof fn lemma_whole_loop(job: HashJobView, tree: Tree)
    requires
        tree.has(job.path),
        job.phase == HashPhase::Whole,
        tree.inode(job.path).content.len() <= u64::MAX,
        job.offset <= tree.inode(job.path).content.len(),
        job.absorbed == tree.inode(job.path).content.subrange(0, job.offset as int),
    ensures
        ends(
            hash_machine(),
            StepView::Ask(
                job,
                FsRequestView::ReadAt { path: job.path, offset: job.offset, len: FULL_BUF },
            ),
            tree,
            Ok(blake3_digest(tree.inode(job.path).content)),
            tree,
        ),
    decreases tree.inode(job.path).content.len() - job.offset,
{
    let machine = hash_machine();
    let content = tree.inode(job.path).content;
    let result = Ok(blake3_digest(content));
    let asking = StepView::Ask(
        job,
        FsRequestView::ReadAt { path: job.path, offset: job.offset, len: FULL_BUF },
    );
    if job.offset == content.len() {
        assert(job.absorbed =~= content);
        assert(content.subrange(job.offset as int, content.len() as int) =~= Seq::<u8>::empty());
        assert(round(machine, asking, tree) == (HashStepView::Finish(result), tree));
        lemma_ends_now(machine, result, tree);
        lemma_ends_after_round(machine, asking, tree, result, tree);
    } else {
        let end = if job.offset + FULL_BUF <= content.len() {
            job.offset + FULL_BUF
        } else {
            content.len() as int
        };
        let bytes = content.subrange(job.offset as int, end);
        let next = HashJobView { offset: end as u64, absorbed: job.absorbed + bytes, ..job };
        assert(next.absorbed =~= content.subrange(0, end));
        assert(round(machine, asking, tree) == (
            HashStepView::Ask(
                next,
                FsRequestView::ReadAt { path: job.path, offset: next.offset, len: FULL_BUF },
            ),
            tree,
        ));
        lemma_whole_loop(next, tree);
        lemma_ends_after_round(machine, asking, tree, result, tree);
    }
}

/// The full hash of a file is the digest of all its bytes, and hashing
/// leaves the tree as it is.
pub proof fn lemma_full_hash_is_digest_of_content(tree: Tree, path: Seq<char>)
    requires
        tree.has(path),
        tree.inode(path).content.len() <= u64::MAX,
    ensures
        ends(
            hash_machine(),
            full_hash_start(path),
            tree,
            Ok(blake3_digest(tree.inode(path).content)),
            tree,
        ),
{
    let job = full_hash_start(path)->Ask_0;
    assert(job.absorbed =~= tree.inode(path).content.subrange(0, 0));
    lemma_whole_loop(job, tree);
}

/// The sparse hash of a file of at most `SPARSE_TOTAL` bytes is its full
/// hash. That of a longer file, whose size was measured rightly and of
/// which no extents are known, is the digest of its first, its middle
/// and its last 4096 bytes, in this order, where the middle ones are
/// centred on the middle of the file.
pub proof fn lemma_sparse_hash_is_digest_of_sample(tree: Tree, path: Seq<char>)
    requires
        tree.has(path),
        tree.inode(path).content.len() <= u64::MAX,
    ensures
        ({
            let content = tree.inode(path).content;
            let size = content.len() as u64;
            ends(
                hash_machine(),
                sparse_hash_start(path, size),
                tree,
                Ok(
                    if size <= SPARSE_TOTAL {
                        blake3_digest(content)
                    } else {
                        blake3_digest(sparse_sample(content, sparse_mid(size) as int))
                    },
                ),
                tree,
            )
        }),
{
    let machine = hash_machine();
    let content = tree.inode(path).content;
    let size = content.len() as u64;
    if size <= SPARSE_TOTAL {
        lemma_full_hash_is_digest_of_content(tree, path);
    } else {
        let middle = sparse_mid(size);
        let result = Ok(blake3_digest(sparse_sample(content, middle as int)));
        let start = sparse_hash_start(path, size);
        let job0 = start->Ask_0;
        let first = content.subrange(0, 4096);
        let job1 = HashJobView { phase: HashPhase::Probe, absorbed: job0.absorbed + first, ..job0 };
        let probing = StepView::Ask(
            job1,
            FsRequestView::QueryExtents { path, start: middle },
        );
        assert(round(machine, start, tree) == (probing, tree));
        let job2 = HashJobView { phase: HashPhase::Middle, ..job1 };
        assert(deciding_extent(Seq::<Extent>::empty(), middle, 0).is_none());
        let reading = StepView::Ask(
            job2,
            FsRequestView::ReadAt { path, offset: middle, len: SPARSE_CHUNK },
        );
        assert(round(machine, probing, tree) == (reading, tree));
        let second = content.subrange(middle as int, middle + 4096);
        let job3 = HashJobView { phase: HashPhase::Last, absorbed: job2.absorbed + second, ..job2 };
        let ending = StepView::Ask(
            job3,
            FsRequestView::ReadAt { path, offset: sparse_end(size), len: SPARSE_CHUNK },
        );
        assert(round(machine, reading, tree) == (ending, tree));
        let third = content.subrange(size - 4096, size as int);
        assert(job3.absorbed + third =~= sparse_sample(content, middle as int));
        assert(round(machine, ending, tree) == (HashStepView::Finish(result), tree));
        lemma_ends_now(machine, result, tree);
        lemma_ends_after_round(machine, ending, tree, result, tree);
        lemma_ends_after_round(machine, reading, tree, result, tree);
        lemma_ends_after_round(machine, probing, tree, result, tree);
        lemma_ends_after_round(machine, start, tree, result, tree);
    }
}

proof fn lemma_compare_loop(job: CompareJobView, tree: Tree)
    requires
        tree.has(job.first),
        tree.has(job.second),
        job.held.is_none(),
        tree.inode(job.first).content.len() <= u64::MAX,
        tree.inode(job.second).content.len() <= u64::MAX,
        job.offset <= tree.inode(job.first).content.len(),
        job.offset <= tree.inode(job.second).content.len(),
        tree.inode(job.first).content.subrange(0, job.offset as int) == tree.inode(
            job.second,
        ).content.subrange(0, job.offset as int),
    ensures
        ends(
            compare_machine(),
            StepView::Ask(
                job,
                FsRequestView::ReadAt { path: job.first, offset: job.offset, len: COMPARE_BUF },
            ),
            tree,
            Ok(tree.inode(job.first).content == tree.inode(job.second).content),
            tree,
        ),
    decreases tree.inode(job.first).content.len() - job.offset,
{
    let machine = compare_machine();
    let a = tree.inode(job.first).content;
    let b = tree.inode(job.second).content;
    let o = job.offset as int;
    let result = Ok::<bool, CompareError>(a == b);
    let end_a = if o + COMPARE_BUF <= a.len() {
        o + COMPARE_BUF
    } else {
        a.len() as int
    };
    let end_b = if o + COMPARE_BUF <= b.len() {
        o + COMPARE_BUF
    } else {
        b.len() as int
    };
    let chunk_a = a.subrange(o, end_a);
    let chunk_b = b.subrange(o, end_b);
    let first = StepView::Ask(
        job,
        FsRequestView::ReadAt { path: job.first, offset: job.offset, len: COMPARE_BUF },
    );
    let second = StepView::Ask(
        CompareJobView { held: Some(chunk_a), ..job },
        FsRequestView::ReadAt { path: job.second, offset: job.offset, len: COMPARE_BUF },
    );
    assert(round(machine, first, tree) == (second, tree));
    if chunk_a.len() != chunk_b.len() {
        assert(a.len() != b.len());
        assert(round(machine, second, tree) == (CompareStepView::Finish(result), tree));
        lemma_ends_now(machine, result, tree);
    } else if chunk_a.len() == 0 {
        assert(a =~= a.subrange(0, o));
        assert(b =~= b.subrange(0, o));
        assert(round(machine, second, tree) == (CompareStepView::Finish(result), tree));
        lemma_ends_now(machine, result, tree);
    } else if chunk_a != chunk_b {
        assert(a != b) by {
            if a == b {
                assert(chunk_a =~= chunk_b);
            }
        }
        assert(round(machine, second, tree) == (CompareStepView::Finish(result), tree));
        lemma_ends_now(machine, result, tree);
    } else {
        let next = CompareJobView { offset: end_a as u64, held: None, ..job };
        assert(a.subrange(0, end_a) =~= a.subrange(0, o) + chunk_a);
        assert(b.subrange(0, end_a) =~= b.subrange(0, o) + chunk_b);
        assert(round(machine, second, tree) == (
            CompareStepView::Ask(
                next,
                FsRequestView::ReadAt { path: job.first, offset: next.offset, len: COMPARE_BUF },
            ),
            tree,
        ));
        lemma_compare_loop(next, tree);
    }
    lemma_ends_after_round(machine, second, tree, result, tree);
    lemma_ends_after_round(machine, first, tree, result, tree);
}

/// Comparing two files says whether their bytes are equal, and leaves the
/// tree as it is: it finds every difference.
pub proof fn lemma_compare_decides_equality(tree: Tree, first: Seq<char>, second: Seq<char>)
    requires
        tree.has(first),
        tree.has(second),
        tree.inode(first).content.len() <= u64::MAX,
        tree.inode(second).content.len() <= u64::MAX,
    ensures
        ends(
            compare_machine(),
            compare_start(first, second),
            tree,
            Ok(tree.inode(first).content == tree.inode(second).content),
            tree,
        ),
{
    let job = compare_start(first, second)->Ask_0;
    assert(tree.inode(first).content.subrange(0, 0) =~= tree.inode(second).content.subrange(0, 0));
    lemma_compare_loop(job, tree);
}

} // verus!
