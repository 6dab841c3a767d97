//! The identity of a file: the full digest of its bytes, and the sparse
//! fingerprint of three sampled windows.

use vstd::prelude::*;
use crate::requests::{Extent, FsReply, FsReplyView, FsRequest, FsRequestView, Step, StepView};

verus! {

/// Length of one sampled window.
pub const SPARSE_CHUNK: usize = 4096;

/// Up to this size a file is hashed whole instead of being sampled.
pub const SPARSE_TOTAL: u64 = 12288;

/// Length of the reads by which a whole file is hashed.
pub const FULL_BUF: usize = 131072;

#[verifier::external_type_specification]
#[verifier::external_body]
pub struct ExHasher(blake3::Hasher);

/// The bytes that a `blake3::Hasher` has been given since it was made, in
/// order.
pub uninterp spec fn absorbed(hasher: blake3::Hasher) -> Seq<u8>;

/// The hasher is one of the regular hash function, as `blake3::Hasher::new`
/// makes it: it has no key, no context and no input offset.
pub uninterp spec fn is_plain(hasher: blake3::Hasher) -> bool;

/// The BLAKE3 digest of a byte string.
pub uninterp spec fn blake3_digest(input: Seq<u8>) -> crate::types::Hash;

/// `blake3::Hasher::new`: a hasher of the regular hash function that has
/// been given nothing yet.
#[verifier::external_body]
fn hasher_new() -> (hasher: blake3::Hasher)
    ensures
        is_plain(hasher),
        absorbed(hasher) == Seq::<u8>::empty(),
{
    blake3::Hasher::new()
}

/// `blake3::Hasher::update`, on a hasher of the regular hash function: the
/// input is appended to what the hasher has been given so far, and the
/// hasher stays one of the regular hash function. Without an input offset
/// the call takes input of any length.
#[verifier::external_body]
fn hasher_update(hasher: &mut blake3::Hasher, input: &[u8])
    requires
        is_plain(*old(hasher)),
    ensures
        is_plain(*final(hasher)),
        absorbed(*final(hasher)) == absorbed(*old(hasher)) + input@,
{
    hasher.update(input);
}

/// `blake3::Hasher::finalize`, on a hasher of the regular hash function:
/// the digest of everything the hasher has been given, as its 32 bytes.
/// The hasher is left as it was. Without an input offset the call does not
/// panic, and without key or context the digest is that of the bytes alone.
#[verifier::external_body]
fn hasher_finalize(hasher: &blake3::Hasher) -> (digest: crate::types::Hash)
    requires
        is_plain(*hasher),
    ensures
        digest == blake3_digest(absorbed(*hasher)),
{
    hasher.finalize().into()
}

/// Why a file could not be hashed.
#[derive(Debug, Clone, Copy, PartialEq, Eq, Structural)]
pub enum HashError {
    /// A read failed, a sampled window came back short, or the answer was
    /// more than was asked for.
    Read,
}

/// Where the middle window starts before any extent is consulted: centred
/// on the middle of the file, and never before its start.
pub open spec fn sparse_mid(size: u64) -> u64 {
    if size / 2 >= 2048 {
        (size / 2 - 2048) as u64
    } else {
        0
    }
}

/// Where the last window starts.
pub open spec fn sparse_end(size: u64) -> u64 {
    if size >= 4096 {
        (size - 4096) as u64
    } else {
        0
    }
}

/// `target` lies inside the extent.
pub open spec fn extent_holds(e: Extent, target: u64) -> bool {
    e.logical <= target && target - e.logical < e.length
}

/// The extent decides the middle window: it holds `target` or starts after it.
pub open spec fn extent_decides(e: Extent, target: u64) -> bool {
    extent_holds(e, target) || e.logical > target
}

/// The first extent at index `from` or later that decides, if there is one.
pub open spec fn deciding_extent(extents: Seq<Extent>, target: u64, from: int) -> Option<Extent>
    decreases extents.len() - from,
{
    if from < 0 || from >= extents.len() {
        None
    } else if extent_decides(extents[from], target) {
        Some(extents[from])
    } else {
        deciding_extent(extents, target, from + 1)
    }
}

/// Where the middle window starts once the extents from `target` on are
/// known. Inside allocated data `target` stands. Where the next allocated
/// extent starts later, the window moves to its start, but never past the
/// start of the last window. Without any such extent `target` stands.
pub open spec fn adjusted_offset(extents: Seq<Extent>, target: u64, size: u64) -> u64 {
    match deciding_extent(extents, target, 0) {
        None => target,
        Some(e) => if e.logical <= target {
            target
        } else if e.logical <= sparse_end(size) {
            e.logical
        } else {
            sparse_end(size)
        },
    }
}

/// The start of the middle window of a file of `file_size` bytes, given the
/// allocated extents that an extent query from `target` on reported.
pub fn adjust_offset_for_sparse(extents: &[Extent], target: u64, file_size: u64) -> (offset: u64)
    ensures
        offset == adjusted_offset(extents@, target, file_size),
{
    let mut i: usize = 0;
    while i < extents.len()
        invariant
            i <= extents.len(),
            deciding_extent(extents@, target, 0) == deciding_extent(extents@, target, i as int),
        decreases extents.len() - i,
    {
        let e = extents[i];
        if e.logical <= target && target - e.logical < e.length {
            return target;
        }
        if e.logical > target {
            let end: u64 = if file_size >= 4096 {
                file_size - 4096
            } else {
                0
            };
            return if e.logical <= end {
                e.logical
            } else {
                end
            };
        }
        i += 1;
    }
    target
}

/// Which read a hashing job is waiting for.
#[derive(Debug, Clone, Copy, PartialEq, Eq, Structural)]
pub enum HashPhase {
    /// The next stretch of a file that is hashed whole.
    Whole,
    /// The first sampled window.
    First,
    /// The extents around the middle of the file.
    Probe,
    /// The middle window.
    Middle,
    /// The last window.
    Last,
}

/// A file being hashed: what has been read of it so far.
pub struct HashJob {
    path: String,
    size: u64,
    phase: HashPhase,
    offset: u64,
    hasher: blake3::Hasher,
}

/// The mathematical twin of [`HashJob`].
pub struct HashJobView {
    pub path: Seq<char>,
    /// The size that the caller measured; not used when hashing whole.
    pub size: u64,
    pub phase: HashPhase,
    /// Where the next stretch of a whole file starts.
    pub offset: u64,
    /// The bytes hashed so far.
    pub absorbed: Seq<u8>,
}

impl HashJob {
    #[verifier::type_invariant]
    spec fn hashes_with_the_regular_function(self) -> bool {
        is_plain(self.hasher)
    }
}

impl View for HashJob {
    type V = HashJobView;

    closed spec fn view(&self) -> HashJobView {
        HashJobView {
            path: self.path@,
            size: self.size,
            phase: self.phase,
            offset: self.offset,
            absorbed: absorbed(self.hasher),
        }
    }
}

pub type HashStep = Step<HashJob, FsRequest, Result<crate::types::Hash, HashError>>;

pub type HashStepView = StepView<HashJobView, FsRequestView, Result<crate::types::Hash, HashError>>;

/// How the full hash of the file at `path` begins: with nothing hashed, by
/// asking for the first stretch.
pub open spec fn full_hash_start(path: Seq<char>) -> HashStepView {
    StepView::Ask(
        HashJobView { path, size: 0, phase: HashPhase::Whole, offset: 0, absorbed: Seq::empty() },
        FsRequestView::ReadAt { path, offset: 0, len: FULL_BUF },
    )
}

/// How the sparse hash of the file at `path` begins: a file of at most
/// `SPARSE_TOTAL` bytes is hashed whole, a longer one from its first window.
pub open spec fn sparse_hash_start(path: Seq<char>, size: u64) -> HashStepView {
    if size <= SPARSE_TOTAL {
        full_hash_start(path)
    } else {
        StepView::Ask(
            HashJobView { path, size, phase: HashPhase::First, offset: 0, absorbed: Seq::empty() },
            FsRequestView::ReadAt { path, offset: 0, len: SPARSE_CHUNK },
        )
    }
}

/// The bytes of a reply that answers a read of exactly `SPARSE_CHUNK` bytes.
pub open spec fn window_of(reply: FsReplyView) -> Option<Seq<u8>> {
    match reply {
        FsReplyView::Bytes(bytes) => if bytes.len() == SPARSE_CHUNK {
            Some(bytes)
        } else {
            None
        },
        _ => None,
    }
}

/// The extents that a reply to an extent query reports: none where the query
/// failed.
pub open spec fn extents_of(reply: FsReplyView) -> Seq<Extent> {
    match reply {
        FsReplyView::Extents(extents) => extents,
        _ => Seq::empty(),
    }
}

/// One step of a hashing job: what it does with the reply to its last
/// request.
///
/// Hashing whole, an empty read ends the file and the digest of all that
/// was read is the result; any other read is hashed and the next stretch
/// asked for. Sampling, each window must come back complete; the windows
/// are hashed in the order first, middle, last, with nothing between them,
/// and the middle window starts where the extents put it.
pub open spec fn hash_resume(job: HashJobView, reply: FsReplyView) -> HashStepView {
    match job.phase {
        HashPhase::Whole => match reply {
            FsReplyView::Bytes(bytes) => if bytes.len() == 0 {
                StepView::Finish(Ok(blake3_digest(job.absorbed)))
            } else if bytes.len() <= FULL_BUF && job.offset + bytes.len() <= u64::MAX {
                let offset = (job.offset + bytes.len()) as u64;
                StepView::Ask(
                    HashJobView { offset, absorbed: job.absorbed + bytes, ..job },
                    FsRequestView::ReadAt { path: job.path, offset, len: FULL_BUF },
                )
            } else {
                StepView::Finish(Err(HashError::Read))
            },
            _ => StepView::Finish(Err(HashError::Read)),
        },
        HashPhase::First => match window_of(reply) {
            Some(bytes) => StepView::Ask(
                HashJobView { phase: HashPhase::Probe, absorbed: job.absorbed + bytes, ..job },
                FsRequestView::QueryExtents { path: job.path, start: sparse_mid(job.size) },
            ),
            None => StepView::Finish(Err(HashError::Read)),
        },
        HashPhase::Probe => StepView::Ask(
            HashJobView { phase: HashPhase::Middle, ..job },
            FsRequestView::ReadAt {
                path: job.path,
                offset: adjusted_offset(extents_of(reply), sparse_mid(job.size), job.size),
                len: SPARSE_CHUNK,
            },
        ),
        HashPhase::Middle => match window_of(reply) {
            Some(bytes) => StepView::Ask(
                HashJobView { phase: HashPhase::Last, absorbed: job.absorbed + bytes, ..job },
                FsRequestView::ReadAt {
                    path: job.path,
                    offset: sparse_end(job.size),
                    len: SPARSE_CHUNK,
                },
            ),
            None => StepView::Finish(Err(HashError::Read)),
        },
        HashPhase::Last => match window_of(reply) {
            Some(bytes) => StepView::Finish(Ok(blake3_digest(job.absorbed + bytes))),
            None => StepView::Finish(Err(HashError::Read)),
        },
    }
}

/// The step asks, if for anything, for a read or for the extents of the
/// file at `path`.
pub open spec fn hash_step_reads(step: HashStepView, path: Seq<char>) -> bool {
    match step {
        StepView::Ask(job, request) => job.path == path && match request {
            FsRequestView::ReadAt { path: asked, .. } => asked == path,
            FsRequestView::QueryExtents { path: asked, .. } => asked == path,
            _ => false,
        },
        StepView::Finish(_) => true,
    }
}

/// Hashing only reads, and only the file that is being hashed: so it
/// begins, and so it goes on whatever the replies.
pub proof fn lemma_hashing_reads_only(job: HashJobView, reply: FsReplyView)
    ensures
        hash_step_reads(full_hash_start(job.path), job.path),
        hash_step_reads(sparse_hash_start(job.path, job.size), job.path),
        hash_step_reads(hash_resume(job, reply), job.path),
{
}

/// Starts the full hash of the file at `path`: the digest of all its bytes,
/// read in stretches of `FULL_BUF` bytes.
pub fn full_hash(path: &str) -> (step: HashStep)
    ensures
        step@ == full_hash_start(path@),
{
    let job = HashJob {
        path: path.to_owned(),
        size: 0,
        phase: HashPhase::Whole,
        offset: 0,
        hasher: hasher_new(),
    };
    Step::Ask(job, FsRequest::ReadAt { path: path.to_owned(), offset: 0, len: FULL_BUF })
}

/// Starts the sparse hash of the file at `path`, whose size the caller has
/// measured as `size`.
pub fn sparse_hash(path: &str, size: u64) -> (step: HashStep)
    ensures
        step@ == sparse_hash_start(path@, size),
{
    if size <= SPARSE_TOTAL {
        return full_hash(path);
    }
    let job = HashJob {
        path: path.to_owned(),
        size,
        phase: HashPhase::First,
        offset: 0,
        hasher: hasher_new(),
    };
    Step::Ask(job, FsRequest::ReadAt { path: path.to_owned(), offset: 0, len: SPARSE_CHUNK })
}

/// Takes a complete window into the hash; `false` where the reply is no
/// complete window, and then nothing is hashed.
fn absorb_window(hasher: &mut blake3::Hasher, reply: &FsReply) -> (taken: bool)
    requires
        is_plain(*old(hasher)),
    ensures
        is_plain(*final(hasher)),
        taken == window_of(reply@).is_some(),
        taken ==> absorbed(*final(hasher)) == absorbed(*old(hasher)) + window_of(reply@).unwrap(),
        !taken ==> *final(hasher) == *old(hasher),
{
    match reply {
        FsReply::Bytes(bytes) => {
            if bytes.len() == SPARSE_CHUNK {
                hasher_update(hasher, bytes.as_slice());
                true
            } else {
                false
            }
        },
        _ => false,
    }
}

impl HashJob {
    /// Resumes the job with the reply to its last request.
    pub fn resume(self, reply: FsReply) -> (step: HashStep)
        ensures
            step@ == hash_resume(self@, reply@),
    {
        proof {
            use_type_invariant(&self);
        }
        let HashJob { path, size, phase, offset, mut hasher } = self;
        match phase {
            HashPhase::Whole => match reply {
                FsReply::Bytes(bytes) => {
                    let n = bytes.len();
                    if n == 0 {
                        Step::Finish(Ok(hasher_finalize(&hasher)))
                    } else if n <= FULL_BUF && n as u64 <= u64::MAX - offset {
                        hasher_update(&mut hasher, bytes.as_slice());
                        let offset = offset + n as u64;
                        let request = FsRequest::ReadAt { path: path.clone(), offset, len: FULL_BUF };
                        Step::Ask(HashJob { path, size, phase, offset, hasher }, request)
                    } else {
                        Step::Finish(Err(HashError::Read))
                    }
                },
                _ => Step::Finish(Err(HashError::Read)),
            },
            HashPhase::First => {
                if absorb_window(&mut hasher, &reply) {
                    let request = FsRequest::QueryExtents {
                        path: path.clone(),
                        start: mid_target(size),
                    };
                    Step::Ask(HashJob { path, size, phase: HashPhase::Probe, offset, hasher }, request)
                } else {
                    Step::Finish(Err(HashError::Read))
                }
            },
            HashPhase::Probe => {
                let target = mid_target(size);
                let middle = match reply {
                    FsReply::Extents(extents) => adjust_offset_for_sparse(
                        extents.as_slice(),
                        target,
                        size,
                    ),
                    _ => {
                        assert(deciding_extent(Seq::<Extent>::empty(), target, 0).is_none());
                        target
                    },
                };
                let request = FsRequest::ReadAt {
                    path: path.clone(),
                    offset: middle,
                    len: SPARSE_CHUNK,
                };
                Step::Ask(HashJob { path, size, phase: HashPhase::Middle, offset, hasher }, request)
            },
            HashPhase::Middle => {
                if absorb_window(&mut hasher, &reply) {
                    let request = FsRequest::ReadAt {
                        path: path.clone(),
                        offset: size.saturating_sub(4096),
                        len: SPARSE_CHUNK,
                    };
                    Step::Ask(HashJob { path, size, phase: HashPhase::Last, offset, hasher }, request)
                } else {
                    Step::Finish(Err(HashError::Read))
                }
            },
            HashPhase::Last => {
                if absorb_window(&mut hasher, &reply) {
                    Step::Finish(Ok(hasher_finalize(&hasher)))
                } else {
                    Step::Finish(Err(HashError::Read))
                }
            },
        }
    }
}

/// Where the middle window of a file of `size` bytes starts before any
/// extent is consulted.
pub fn mid_target(size: u64) -> (target: u64)
    ensures
        target == sparse_mid(size),
{
    (size / 2).saturating_sub(2048)
}

} // verus!
