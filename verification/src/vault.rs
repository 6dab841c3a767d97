//! The content-addressed vault: where a digest's master file lives, how a
//! file is taken in, and how a master is removed again.

use vstd::prelude::*;
use vstd::string::*;
use crate::paths::{disarmed, join, joined, release_request, temp_of, temp_path, TempCleanup, TempCleanupView};
use crate::requests::{
    reply_is_done, reply_is_yes, FsReply, FsReplyView, FsRequest, FsRequestView, Step, StepView,
};
use crate::types::{hash_to_hex, hex_of};

verus! {

/// The vault's directory below the home directory `home`.
pub open spec fn vault_root_of(home: Seq<char>) -> Seq<char> {
    joined(joined(home, seq!['.', 'i', 'm', 'p', 'r', 'i', 'n', 't']), seq!['s', 't', 'o', 'r', 'e'])
}

/// The outer shard directory of a digest: named by the first two characters
/// of its hexadecimal form.
pub open spec fn outer_shard_of(root: Seq<char>, hash: Seq<u8>) -> Seq<char> {
    joined(root, hex_of(hash).subrange(0, 2))
}

/// The inner shard directory of a digest: named by the third and fourth
/// character of its hexadecimal form.
pub open spec fn inner_shard_of(root: Seq<char>, hash: Seq<u8>) -> Seq<char> {
    joined(outer_shard_of(root, hash), hex_of(hash).subrange(2, 4))
}

/// Where the master of a digest lives: in its inner shard directory, under
/// the whole hexadecimal form.
pub open spec fn shard_path_of(root: Seq<char>, hash: Seq<u8>) -> Seq<char> {
    joined(inner_shard_of(root, hash), hex_of(hash))
}

/// The vault's directory below the home directory `home`.
pub fn vault_root(home: &str) -> (root: String)
    ensures
        root@ == vault_root_of(home@),
{
    proof {
        reveal_strlit(".imprint");
        reveal_strlit("store");
        assert(".imprint"@ =~= seq!['.', 'i', 'm', 'p', 'r', 'i', 'n', 't']);
        assert("store"@ =~= seq!['s', 't', 'o', 'r', 'e']);
    }
    let dir = join(home, ".imprint");
    join(dir.as_str(), "store")
}

/// The outer shard directory of `hash` in the vault at `root`.
pub fn outer_shard(root: &str, hash: &crate::types::Hash) -> (dir: String)
    ensures
        dir@ == outer_shard_of(root@, hash@),
{
    let hex = hash_to_hex(hash);
    join(root, hex.as_str().substring_char(0, 2))
}

/// The inner shard directory of `hash` in the vault at `root`.
pub fn inner_shard(root: &str, hash: &crate::types::Hash) -> (dir: String)
    ensures
        dir@ == inner_shard_of(root@, hash@),
{
    let hex = hash_to_hex(hash);
    let outer = join(root, hex.as_str().substring_char(0, 2));
    join(outer.as_str(), hex.as_str().substring_char(2, 4))
}

/// Where the master of `hash` lives in the vault at `root`.
pub fn shard_path(root: &str, hash: &crate::types::Hash) -> (path: String)
    ensures
        path@ == shard_path_of(root@, hash@),
{
    let hex = hash_to_hex(hash);
    let inner = inner_shard(root, hash);
    join(inner.as_str(), hex.as_str())
}

/// Why the vault could not take a file in or give a master up; each names
/// the operation that failed.
#[derive(Debug, Clone, Copy, PartialEq, Eq, Structural)]
pub enum VaultError {
    CreateDirectory,
    RemoveStaleTemp,
    CopyIntoTemp,
    SyncTemp,
    Finalize,
    RemoveSource,
    RemoveMaster,
}

/// Which reply an ingest is waiting for.
#[derive(Debug, Clone, Copy, PartialEq, Eq, Structural)]
pub enum IngestPhase {
    /// Whether the master is in the vault already.
    ProbeMaster,
    /// The shard directories being created.
    MakeDirs,
    /// Whether a staged file was left behind.
    ProbeTemp,
    /// The stale staged file being removed.
    ClearTemp,
    /// The source being renamed to the staging name.
    Stage,
    /// The source being copied to the staging name.
    Copy,
    /// The staged copy being flushed.
    Sync,
    /// The staged file being renamed to the master's path.
    Publish,
    /// The source being removed after it was copied.
    DropSource,
    /// Leaving with an error: whether the staged file is still there.
    CleanupProbe(VaultError),
    /// Leaving with an error: the staged file being removed.
    CleanupRemove(VaultError),
}

/// A file on its way into the vault.
pub struct IngestJob {
    src: String,
    dest: String,
    dir: String,
    temp: String,
    guard: Option<TempCleanup>,
    used_copy: bool,
    phase: IngestPhase,
}

/// The mathematical twin of [`IngestJob`].
pub struct IngestJobView {
    pub src: Seq<char>,
    /// The master's path.
    pub dest: Seq<char>,
    /// The master's directory.
    pub dir: Seq<char>,
    /// The staging name.
    pub temp: Seq<char>,
    pub guard: Option<TempCleanupView>,
    /// The source was copied, not renamed, and is still to be removed.
    pub used_copy: bool,
    pub phase: IngestPhase,
}

impl View for IngestJob {
    type V = IngestJobView;

    closed spec fn view(&self) -> IngestJobView {
        IngestJobView {
            src: self.src@,
            dest: self.dest@,
            dir: self.dir@,
            temp: self.temp@,
            guard: match self.guard {
                Some(g) => Some(g@),
                None => None,
            },
            used_copy: self.used_copy,
            phase: self.phase,
        }
    }
}

pub type IngestStep = Step<IngestJob, FsRequest, Result<(), VaultError>>;

pub type IngestStepView = StepView<IngestJobView, FsRequestView, Result<(), VaultError>>;

/// How taking the file `src` in under the digest `hash` begins: by asking
/// whether the master exists. The staging name is the master's path with
/// the staging suffix.
pub open spec fn ingest_start(root: Seq<char>, hash: Seq<u8>, src: Seq<char>) -> IngestStepView {
    let dest = shard_path_of(root, hash);
    StepView::Ask(
        IngestJobView {
            src,
            dest,
            dir: inner_shard_of(root, hash),
            temp: temp_of(dest),
            guard: None,
            used_copy: false,
            phase: IngestPhase::ProbeMaster,
        },
        FsRequestView::Exists { path: dest },
    )
}

/// Leaving an ingest with an error: first the guard's cleanup, where a
/// guard is armed.
pub open spec fn ingest_leave(job: IngestJobView, error: VaultError) -> IngestStepView {
    match release_request(job.guard) {
        Some(request) => StepView::Ask(
            IngestJobView { phase: IngestPhase::CleanupProbe(error), ..job },
            request,
        ),
        None => StepView::Finish(Err(error)),
    }
}

/// The staging step of an ingest: from here on a guard watches the staged
/// file.
pub open spec fn ingest_stage(job: IngestJobView) -> IngestStepView {
    StepView::Ask(
        IngestJobView {
            guard: Some(TempCleanupView { path: job.temp, armed: true }),
            phase: IngestPhase::Stage,
            ..job
        },
        FsRequestView::Rename { from: job.src, to: job.temp },
    )
}

/// The publishing step of an ingest.
pub open spec fn ingest_publish(job: IngestJobView) -> IngestStepView {
    StepView::Ask(
        IngestJobView { phase: IngestPhase::Publish, ..job },
        FsRequestView::Rename { from: job.temp, to: job.dest },
    )
}

/// One step of an ingest: what it does with the reply to its last request.
///
/// A master that exists is used as it is. Otherwise the shard directories
/// are created and a stale staged file is removed. The source is renamed
/// to the staging name or, where that fails, copied there and flushed; the
/// staged file is then renamed to the master's path, and only after that a
/// copied source is removed. A failure between staging and publishing
/// removes the staged file before the error is returned.
pub open spec fn ingest_resume(job: IngestJobView, reply: FsReplyView) -> IngestStepView {
    let done = reply is Done;
    let yes = reply == FsReplyView::Flag(true);
    match job.phase {
        IngestPhase::ProbeMaster => if yes {
            StepView::Finish(Ok(()))
        } else {
            StepView::Ask(
                IngestJobView { phase: IngestPhase::MakeDirs, ..job },
                FsRequestView::CreateDirAll { path: job.dir },
            )
        },
        IngestPhase::MakeDirs => if done {
            StepView::Ask(
                IngestJobView { phase: IngestPhase::ProbeTemp, ..job },
                FsRequestView::Exists { path: job.temp },
            )
        } else {
            StepView::Finish(Err(VaultError::CreateDirectory))
        },
        IngestPhase::ProbeTemp => if yes {
            StepView::Ask(
                IngestJobView { phase: IngestPhase::ClearTemp, ..job },
                FsRequestView::RemoveFile { path: job.temp },
            )
        } else {
            ingest_stage(job)
        },
        IngestPhase::ClearTemp => if done {
            ingest_stage(job)
        } else {
            StepView::Finish(Err(VaultError::RemoveStaleTemp))
        },
        IngestPhase::Stage => if done {
            ingest_publish(job)
        } else {
            StepView::Ask(
                IngestJobView { phase: IngestPhase::Copy, ..job },
                FsRequestView::CopyFile { from: job.src, to: job.temp },
            )
        },
        IngestPhase::Copy => if done {
            StepView::Ask(
                IngestJobView { used_copy: true, phase: IngestPhase::Sync, ..job },
                FsRequestView::SyncFile { path: job.temp },
            )
        } else {
            ingest_leave(job, VaultError::CopyIntoTemp)
        },
        IngestPhase::Sync => if done {
            ingest_publish(job)
        } else {
            ingest_leave(job, VaultError::SyncTemp)
        },
        IngestPhase::Publish => if done {
            if job.used_copy {
                StepView::Ask(
                    IngestJobView {
                        guard: disarmed(job.guard),
                        phase: IngestPhase::DropSource,
                        ..job
                    },
                    FsRequestView::RemoveFile { path: job.src },
                )
            } else {
                StepView::Finish(Ok(()))
            }
        } else {
            ingest_leave(job, VaultError::Finalize)
        },
        IngestPhase::DropSource => if done {
            StepView::Finish(Ok(()))
        } else {
            StepView::Finish(Err(VaultError::RemoveSource))
        },
        IngestPhase::CleanupProbe(error) => if yes {
            StepView::Ask(
                IngestJobView { phase: IngestPhase::CleanupRemove(error), ..job },
                FsRequestView::RemoveFile { path: job.temp },
            )
        } else {
            StepView::Finish(Err(error))
        },
        IngestPhase::CleanupRemove(error) => StepView::Finish(Err(error)),
    }
}

/// Starts taking the file `src` into the vault at `root`, as the master of
/// the digest `hash`. When the ingest finishes with `Ok`, the master is at
/// `shard_path(root, hash)`.
pub fn ensure_in_vault(root: &str, hash: &crate::types::Hash, src: &str) -> (step: IngestStep)
    ensures
        step@ == ingest_start(root@, hash@, src@),
{
    let dest = shard_path(root, hash);
    let job = IngestJob {
        src: src.to_owned(),
        dir: inner_shard(root, hash),
        temp: temp_path(dest.as_str()),
        dest: dest.clone(),
        guard: None,
        used_copy: false,
        phase: IngestPhase::ProbeMaster,
    };
    Step::Ask(job, FsRequest::Exists { path: dest })
}

impl IngestJob {
    fn leave(self, error: VaultError) -> (step: IngestStep)
        ensures
            step@ == ingest_leave(self@, error),
    {
        let mut job = self;
        let request = match &job.guard {
            Some(guard) => guard.release(),
            None => None,
        };
        match request {
            Some(request) => {
                job.phase = IngestPhase::CleanupProbe(error);
                Step::Ask(job, request)
            },
            None => Step::Finish(Err(error)),
        }
    }

    fn disarm(&mut self)
        ensures
            final(self)@ == (IngestJobView { guard: disarmed(old(self)@.guard), ..old(self)@ }),
    {
        match &mut self.guard {
            Some(guard) => {
                guard.disarm();
            },
            None => {},
        }
    }

    fn stage(self) -> (step: IngestStep)
        ensures
            step@ == ingest_stage(self@),
    {
        let mut job = self;
        job.guard = Some(TempCleanup::new(job.temp.clone()));
        job.phase = IngestPhase::Stage;
        let request = FsRequest::Rename { from: job.src.clone(), to: job.temp.clone() };
        Step::Ask(job, request)
    }

    fn publish(self) -> (step: IngestStep)
        ensures
            step@ == ingest_publish(self@),
    {
        let mut job = self;
        job.phase = IngestPhase::Publish;
        let request = FsRequest::Rename { from: job.temp.clone(), to: job.dest.clone() };
        Step::Ask(job, request)
    }

    /// Resumes the ingest with the reply to its last request.
    pub fn resume(self, reply: FsReply) -> (step: IngestStep)
        ensures
            step@ == ingest_resume(self@, reply@),
    {
        let mut job = self;
        let done = reply_is_done(&reply);
        let yes = reply_is_yes(&reply);
        match job.phase {
            IngestPhase::ProbeMaster => {
                if yes {
                    Step::Finish(Ok(()))
                } else {
                    job.phase = IngestPhase::MakeDirs;
                    let request = FsRequest::CreateDirAll { path: job.dir.clone() };
                    Step::Ask(job, request)
                }
            },
            IngestPhase::MakeDirs => {
                if done {
                    job.phase = IngestPhase::ProbeTemp;
                    let request = FsRequest::Exists { path: job.temp.clone() };
                    Step::Ask(job, request)
                } else {
                    Step::Finish(Err(VaultError::CreateDirectory))
                }
            },
            IngestPhase::ProbeTemp => {
                if yes {
                    job.phase = IngestPhase::ClearTemp;
                    let request = FsRequest::RemoveFile { path: job.temp.clone() };
                    Step::Ask(job, request)
                } else {
                    job.stage()
                }
            },
            IngestPhase::ClearTemp => {
                if done {
                    job.stage()
                } else {
                    Step::Finish(Err(VaultError::RemoveStaleTemp))
                }
            },
            IngestPhase::Stage => {
                if done {
                    job.publish()
                } else {
                    job.phase = IngestPhase::Copy;
                    let request = FsRequest::CopyFile {
                        from: job.src.clone(),
                        to: job.temp.clone(),
                    };
                    Step::Ask(job, request)
                }
            },
            IngestPhase::Copy => {
                if done {
                    job.used_copy = true;
                    job.phase = IngestPhase::Sync;
                    let request = FsRequest::SyncFile { path: job.temp.clone() };
                    Step::Ask(job, request)
                } else {
                    job.leave(VaultError::CopyIntoTemp)
                }
            },
            IngestPhase::Sync => {
                if done {
                    job.publish()
                } else {
                    job.leave(VaultError::SyncTemp)
                }
            },
            IngestPhase::Publish => {
                if done {
                    if job.used_copy {
                        job.disarm();
                        job.phase = IngestPhase::DropSource;
                        let request = FsRequest::RemoveFile { path: job.src.clone() };
                        Step::Ask(job, request)
                    } else {
                        Step::Finish(Ok(()))
                    }
                } else {
                    job.leave(VaultError::Finalize)
                }
            },
            IngestPhase::DropSource => {
                if done {
                    Step::Finish(Ok(()))
                } else {
                    Step::Finish(Err(VaultError::RemoveSource))
                }
            },
            IngestPhase::CleanupProbe(error) => {
                if yes {
                    job.phase = IngestPhase::CleanupRemove(error);
                    let request = FsRequest::RemoveFile { path: job.temp.clone() };
                    Step::Ask(job, request)
                } else {
                    Step::Finish(Err(error))
                }
            },
            IngestPhase::CleanupRemove(error) => Step::Finish(Err(error)),
        }
    }
}

/// Which reply a removal is waiting for.
#[derive(Debug, Clone, Copy, PartialEq, Eq, Structural)]
pub enum RemovalPhase {
    /// Whether the master exists.
    ProbeMaster,
    /// The master being removed.
    RemoveMaster,
    /// Whether the inner shard directory is empty.
    ProbeInner,
    /// The inner shard directory being removed.
    DropInner,
    /// Whether the outer shard directory is empty.
    ProbeOuter,
    /// The outer shard directory being removed.
    DropOuter,
}

/// A master on its way out of the vault.
pub struct RemovalJob {
    dest: String,
    inner: String,
    outer: String,
    phase: RemovalPhase,
}

/// The mathematical twin of [`RemovalJob`].
pub struct RemovalJobView {
    /// The master's path.
    pub dest: Seq<char>,
    /// The inner shard directory, which holds the master.
    pub inner: Seq<char>,
    /// The outer shard directory, which holds the inner one.
    pub outer: Seq<char>,
    pub phase: RemovalPhase,
}

impl View for RemovalJob {
    type V = RemovalJobView;

    closed spec fn view(&self) -> RemovalJobView {
        RemovalJobView {
            dest: self.dest@,
            inner: self.inner@,
            outer: self.outer@,
            phase: self.phase,
        }
    }
}

pub type RemovalStep = Step<RemovalJob, FsRequest, Result<(), VaultError>>;

pub type RemovalStepView = StepView<RemovalJobView, FsRequestView, Result<(), VaultError>>;

/// How removing the master of `hash` begins: by asking whether it exists.
pub open spec fn removal_start(root: Seq<char>, hash: Seq<u8>) -> RemovalStepView {
    let dest = shard_path_of(root, hash);
    StepView::Ask(
        RemovalJobView {
            dest,
            inner: inner_shard_of(root, hash),
            outer: outer_shard_of(root, hash),
            phase: RemovalPhase::ProbeMaster,
        },
        FsRequestView::Exists { path: dest },
    )
}

/// One step of a removal: what it does with the reply to its last request.
///
/// A master that does not exist leaves nothing to do. Only a failure to
/// remove the master is an error. After the master, the inner shard
/// directory is removed if it is empty, and after it the outer one if that
/// is empty; whether these removals succeed is not looked at.
pub open spec fn removal_resume(job: RemovalJobView, reply: FsReplyView) -> RemovalStepView {
    let yes = reply == FsReplyView::Flag(true);
    match job.phase {
        RemovalPhase::ProbeMaster => if yes {
            StepView::Ask(
                RemovalJobView { phase: RemovalPhase::RemoveMaster, ..job },
                FsRequestView::RemoveFile { path: job.dest },
            )
        } else {
            StepView::Finish(Ok(()))
        },
        RemovalPhase::RemoveMaster => if reply is Done {
            StepView::Ask(
                RemovalJobView { phase: RemovalPhase::ProbeInner, ..job },
                FsRequestView::IsDirEmpty { path: job.inner },
            )
        } else {
            StepView::Finish(Err(VaultError::RemoveMaster))
        },
        RemovalPhase::ProbeInner => if yes {
            StepView::Ask(
                RemovalJobView { phase: RemovalPhase::DropInner, ..job },
                FsRequestView::RemoveDir { path: job.inner },
            )
        } else {
            StepView::Finish(Ok(()))
        },
        RemovalPhase::DropInner => StepView::Ask(
            RemovalJobView { phase: RemovalPhase::ProbeOuter, ..job },
            FsRequestView::IsDirEmpty { path: job.outer },
        ),
        RemovalPhase::ProbeOuter => if yes {
            StepView::Ask(
                RemovalJobView { phase: RemovalPhase::DropOuter, ..job },
                FsRequestView::RemoveDir { path: job.outer },
            )
        } else {
            StepView::Finish(Ok(()))
        },
        RemovalPhase::DropOuter => StepView::Finish(Ok(())),
    }
}

/// Starts removing the master of `hash` from the vault at `root`.
pub fn remove_from_vault(root: &str, hash: &crate::types::Hash) -> (step: RemovalStep)
    ensures
        step@ == removal_start(root@, hash@),
{
    let dest = shard_path(root, hash);
    let job = RemovalJob {
        dest: dest.clone(),
        inner: inner_shard(root, hash),
        outer: outer_shard(root, hash),
        phase: RemovalPhase::ProbeMaster,
    };
    Step::Ask(job, FsRequest::Exists { path: dest })
}

impl RemovalJob {
    /// Resumes the removal with the reply to its last request.
    pub fn resume(self, reply: FsReply) -> (step: RemovalStep)
        ensures
            step@ == removal_resume(self@, reply@),
    {
        let mut job = self;
        let yes = reply_is_yes(&reply);
        match job.phase {
            RemovalPhase::ProbeMaster => {
                if yes {
                    job.phase = RemovalPhase::RemoveMaster;
                    let request = FsRequest::RemoveFile { path: job.dest.clone() };
                    Step::Ask(job, request)
                } else {
                    Step::Finish(Ok(()))
                }
            },
            RemovalPhase::RemoveMaster => {
                if reply_is_done(&reply) {
                    job.phase = RemovalPhase::ProbeInner;
                    let request = FsRequest::IsDirEmpty { path: job.inner.clone() };
                    Step::Ask(job, request)
                } else {
                    Step::Finish(Err(VaultError::RemoveMaster))
                }
            },
            RemovalPhase::ProbeInner => {
                if yes {
                    job.phase = RemovalPhase::DropInner;
                    let request = FsRequest::RemoveDir { path: job.inner.clone() };
                    Step::Ask(job, request)
                } else {
                    Step::Finish(Ok(()))
                }
            },
            RemovalPhase::DropInner => {
                job.phase = RemovalPhase::ProbeOuter;
                let request = FsRequest::IsDirEmpty { path: job.outer.clone() };
                Step::Ask(job, request)
            },
            RemovalPhase::ProbeOuter => {
                if yes {
                    job.phase = RemovalPhase::DropOuter;
                    let request = FsRequest::RemoveDir { path: job.outer.clone() };
                    Step::Ask(job, request)
                } else {
                    Step::Finish(Ok(()))
                }
            },
            RemovalPhase::DropOuter => Step::Finish(Ok(())),
        }
    }
}

} // verus!
