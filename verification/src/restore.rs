//! The restore run: every file of a walk that the state store knows is
//! given its own bytes back, and masters that are no longer needed leave
//! the vault.

use vstd::prelude::*;
use vstd::string::*;
use crate::dedupe::{link_resume, restore_file, restore_start, LinkJob, LinkJobView, LinkStep};
use crate::paths::{is_temp, is_temp_file};
use crate::pipeline::{
    fs_reply_of, into_fs_reply, into_store_reply, store_reply_of, Reply, ReplyView, Report,
    ReportView, Request, RequestView,
};
use crate::requests::{
    reply_is_yes, FileStat, FsReply, FsReplyView, FsRequest, FsRequestView, Step, StepView,
};
use crate::scanner::{Walk, WalkEntry, WalkError};
use crate::state::{StoreReply, StoreRequest, StoreRequestView};
use crate::vault::{
    remove_from_vault, removal_resume, removal_start, shard_path, shard_path_of, RemovalJob,
    RemovalJobView, RemovalStep, RemovalStepView,
};

verus! {

/// What a restore run did, or, for a dry run, would have done.
#[derive(Debug, Clone, Copy, PartialEq, Eq, Structural)]
pub struct RestoreSummary {
    /// The number of files restored.
    pub restored: usize,
    /// The sum of their sizes, or `u64::MAX` where the sum is larger.
    pub bytes: u64,
}

/// What a restore run keeps from one request to the next, but for what it
/// is waiting for.
pub struct RestoreCore {
    root: String,
    entries: Vec<WalkEntry>,
    dry_run: bool,
    at: usize,
    stat: FileStat,
    hash: Option<crate::types::Hash>,
    summary: RestoreSummary,
}

/// The mathematical twin of [`RestoreCore`].
pub struct RestoreCoreView {
    /// The vault's directory.
    pub root: Seq<char>,
    /// The entries of the walk.
    pub entries: Seq<WalkEntry>,
    pub dry_run: bool,
    /// The index of the entry at work.
    pub at: usize,
    /// The metadata of the file at work.
    pub stat: FileStat,
    /// The digest that the file index has for the file at work.
    pub hash: Option<crate::types::Hash>,
    /// What has been restored before the file at work.
    pub summary: RestoreSummary,
}

impl RestoreCore {
    #[verifier::type_invariant]
    spec fn at_work_on_an_entry(self) -> bool {
        self.at < self.entries.len() && self.summary.restored <= self.at
    }
}

impl View for RestoreCore {
    type V = RestoreCoreView;

    closed spec fn view(&self) -> RestoreCoreView {
        RestoreCoreView {
            root: self.root@,
            entries: self.entries@,
            dry_run: self.dry_run,
            at: self.at,
            stat: self.stat,
            hash: self.hash,
            summary: self.summary,
        }
    }
}

/// What a restore run is waiting for.
pub enum RestorePhase {
    /// The metadata of the file at work.
    Stat,
    /// Whether the file's inode is marked as a hard link to a master.
    CheckVaulted,
    /// The file's record, for its digest; the file is restored whatever
    /// the answer.
    RecallHash,
    /// The file's record; without one the file is passed over.
    LookUp,
    /// Whether the master of the file's digest is in the vault.
    ProbeVault,
    /// Dry run: the line about the file.
    DryRestore,
    /// Dry run: the line about the count.
    DryDecrement,
    /// A step of the file's restoration.
    Restore(LinkJob),
    /// The line that says that the file was restored.
    AfterRestored,
    /// The line that says that the file could not be restored.
    AfterFailed,
    /// The inode's mark being removed.
    Unmark,
    /// The file's record being removed.
    Unindex,
    /// The count of the file's digest.
    GetCount,
    /// The lowered count being written.
    SetCount,
    /// A step of the master's removal from the vault.
    Remove(RemovalJob),
    /// The count being removed.
    RemoveCount,
    /// The line that says that the master was removed.
    AfterPruned,
}

/// The mathematical twin of [`RestorePhase`].
pub enum RestorePhaseView {
    Stat,
    CheckVaulted,
    RecallHash,
    LookUp,
    ProbeVault,
    DryRestore,
    DryDecrement,
    Restore(LinkJobView),
    AfterRestored,
    AfterFailed,
    Unmark,
    Unindex,
    GetCount,
    SetCount,
    Remove(RemovalJobView),
    RemoveCount,
    AfterPruned,
}

impl View for RestorePhase {
    type V = RestorePhaseView;

    open spec fn view(&self) -> RestorePhaseView {
        match *self {
            RestorePhase::Stat => RestorePhaseView::Stat,
            RestorePhase::CheckVaulted => RestorePhaseView::CheckVaulted,
            RestorePhase::RecallHash => RestorePhaseView::RecallHash,
            RestorePhase::LookUp => RestorePhaseView::LookUp,
            RestorePhase::ProbeVault => RestorePhaseView::ProbeVault,
            RestorePhase::DryRestore => RestorePhaseView::DryRestore,
            RestorePhase::DryDecrement => RestorePhaseView::DryDecrement,
            RestorePhase::Restore(job) => RestorePhaseView::Restore(job@),
            RestorePhase::AfterRestored => RestorePhaseView::AfterRestored,
            RestorePhase::AfterFailed => RestorePhaseView::AfterFailed,
            RestorePhase::Unmark => RestorePhaseView::Unmark,
            RestorePhase::Unindex => RestorePhaseView::Unindex,
            RestorePhase::GetCount => RestorePhaseView::GetCount,
            RestorePhase::SetCount => RestorePhaseView::SetCount,
            RestorePhase::Remove(job) => RestorePhaseView::Remove(job@),
            RestorePhase::RemoveCount => RestorePhaseView::RemoveCount,
            RestorePhase::AfterPruned => RestorePhaseView::AfterPruned,
        }
    }
}

/// A restore run between two requests.
pub struct RestoreRun {
    core: RestoreCore,
    phase: RestorePhase,
}

/// The mathematical twin of [`RestoreRun`].
pub struct RestoreRunView {
    pub core: RestoreCoreView,
    pub phase: RestorePhaseView,
}

impl View for RestoreRun {
    type V = RestoreRunView;

    closed spec fn view(&self) -> RestoreRunView {
        RestoreRunView { core: self.core@, phase: self.phase@ }
    }
}

pub type RestoreStep = Step<RestoreRun, Request, RestoreSummary>;

pub type RestoreStepView = StepView<RestoreRunView, RequestView, RestoreSummary>;

/// The run asks for `request` and waits in `phase`.
pub open spec fn restore_ask(
    core: RestoreCoreView,
    phase: RestorePhaseView,
    request: RequestView,
) -> RestoreStepView {
    StepView::Ask(RestoreRunView { core, phase }, request)
}

/// The entry may be a file to restore: a regular file whose name is no
/// staging name.
pub open spec fn restorable(entry: WalkEntry) -> bool {
    entry.is_file && !is_temp(entry.path@)
}

/// The index of the first entry at `from` or later that may be a file to
/// restore.
pub open spec fn next_restorable(entries: Seq<WalkEntry>, from: int) -> Option<int>
    decreases entries.len() - from,
{
    if from < 0 || from >= entries.len() {
        None
    } else if restorable(entries[from]) {
        Some(from)
    } else {
        next_restorable(entries, from + 1)
    }
}

/// The path of the file at work.
pub open spec fn file_at_work(core: RestoreCoreView) -> Seq<char> {
    core.entries[core.at as int].path@
}

/// The summary with one more file of `size` bytes.
pub open spec fn counted(summary: RestoreSummary, size: u64) -> RestoreSummary {
    RestoreSummary {
        restored: (summary.restored + 1) as usize,
        bytes: if summary.bytes + size > u64::MAX {
            u64::MAX
        } else {
            (summary.bytes + size) as u64
        },
    }
}

/// How a restore run begins: with the first entry that may be a file to
/// restore, and nothing restored.
pub open spec fn restore_run_start(root: Seq<char>, entries: Seq<WalkEntry>, dry_run: bool) -> RestoreStepView {
    restore_enter(
        RestoreCoreView {
            root,
            entries,
            dry_run,
            at: 0,
            stat: crate::dedupe::no_stat(),
            hash: None,
            summary: RestoreSummary { restored: 0, bytes: 0 },
        },
        0,
    )
}

/// The run goes on with the first entry at `from` or later that may be a
/// file to restore, by asking for its metadata, and ends with its summary
/// where there is none.
pub open spec fn restore_enter(core: RestoreCoreView, from: int) -> RestoreStepView {
    match next_restorable(core.entries, from) {
        None => StepView::Finish(core.summary),
        Some(i) => restore_ask(
            RestoreCoreView { at: i as usize, hash: None, ..core },
            RestorePhaseView::Stat,
            RequestView::Fs(FsRequestView::Stat { path: core.entries[i].path@ }),
        ),
    }
}

/// The run passes the file at work over.
pub open spec fn restore_pass(core: RestoreCoreView) -> RestoreStepView {
    restore_enter(core, core.at + 1)
}

/// The run counts the file at work as restored and turns to the next.
pub open spec fn restore_count(core: RestoreCoreView) -> RestoreStepView {
    restore_enter(
        RestoreCoreView { summary: counted(core.summary, core.stat.size), ..core },
        core.at + 1,
    )
}

/// The file at work is to be restored: a dry run tells so, any other run
/// begins to restore it.
pub open spec fn restore_begin(core: RestoreCoreView) -> RestoreStepView {
    if core.dry_run {
        restore_ask(
            core,
            RestorePhaseView::DryRestore,
            RequestView::Tell(ReportView::WouldRestore { path: file_at_work(core) }),
        )
    } else {
        restore_restoring(core, restore_start(file_at_work(core)))
    }
}

/// The run goes on with a step of the file's restoration, and tells how
/// it ended.
pub open spec fn restore_restoring(core: RestoreCoreView, step: crate::dedupe::LinkStepView) -> RestoreStepView {
    match step {
        StepView::Ask(job, request) => restore_ask(
            core,
            RestorePhaseView::Restore(job),
            RequestView::Fs(request),
        ),
        StepView::Finish(Ok(_)) => restore_ask(
            core,
            RestorePhaseView::AfterRestored,
            RequestView::Tell(ReportView::Restored { path: file_at_work(core) }),
        ),
        StepView::Finish(Err(_)) => restore_ask(
            core,
            RestorePhaseView::AfterFailed,
            RequestView::Tell(ReportView::RestoreFailed { path: file_at_work(core) }),
        ),
    }
}

/// The run goes on with a step of the master's removal; however that
/// ends, the count is removed next.
pub open spec fn restore_removing(
    core: RestoreCoreView,
    hash: crate::types::Hash,
    step: RemovalStepView,
) -> RestoreStepView {
    match step {
        StepView::Ask(job, request) => restore_ask(
            core,
            RestorePhaseView::Remove(job),
            RequestView::Fs(request),
        ),
        StepView::Finish(_) => restore_ask(
            core,
            RestorePhaseView::RemoveCount,
            RequestView::Store(StoreRequestView::RemoveCasRefcount { hash }),
        ),
    }
}

/// One step of a restore run: what it does with the reply to its last
/// request.
///
/// A file is restored if its inode is marked as a hard link to a master,
/// or if the file index has a record of it and the master of the recorded
/// digest is in the vault. A file whose metadata cannot be read is passed
/// over. After a file is restored, its inode's mark and its record are
/// removed. Where its digest is known and the digest's count is above
/// zero, the count is lowered by one; a count that reaches zero is
/// removed together with the master. Whether these writes succeed is not
/// looked at. A dry run asks the same questions and only tells what
/// would be done.
pub open spec fn restore_resume(run: RestoreRunView, reply: ReplyView) -> RestoreStepView {
    let core = run.core;
    let fs = fs_reply_of(reply);
    let store = store_reply_of(reply);
    let path = file_at_work(core);
    match run.phase {
        RestorePhaseView::Stat => match fs {
            FsReplyView::Stat(stat) => restore_ask(
                RestoreCoreView { stat, ..core },
                RestorePhaseView::CheckVaulted,
                RequestView::Store(StoreRequestView::IsInodeVaulted { inode: stat.inode }),
            ),
            _ => restore_pass(core),
        },
        RestorePhaseView::CheckVaulted => restore_ask(
            core,
            if store matches StoreReply::Flag(true) {
                RestorePhaseView::RecallHash
            } else {
                RestorePhaseView::LookUp
            },
            RequestView::Store(StoreRequestView::GetFileMetadata { path }),
        ),
        RestorePhaseView::RecallHash => match store {
            StoreReply::Metadata(Some(metadata)) => restore_begin(
                RestoreCoreView { hash: Some(metadata.hash), ..core },
            ),
            _ => restore_begin(RestoreCoreView { hash: None, ..core }),
        },
        RestorePhaseView::LookUp => match store {
            StoreReply::Metadata(Some(metadata)) => restore_ask(
                RestoreCoreView { hash: Some(metadata.hash), ..core },
                RestorePhaseView::ProbeVault,
                RequestView::Fs(
                    FsRequestView::Exists { path: shard_path_of(core.root, metadata.hash@) },
                ),
            ),
            _ => restore_pass(core),
        },
        RestorePhaseView::ProbeVault => if fs == FsReplyView::Flag(true) {
            restore_begin(core)
        } else {
            restore_pass(core)
        },
        RestorePhaseView::DryRestore => match core.hash {
            Some(hash) => restore_ask(
                core,
                RestorePhaseView::DryDecrement,
                RequestView::Tell(ReportView::WouldDecrement { hash }),
            ),
            None => restore_count(core),
        },
        RestorePhaseView::DryDecrement => restore_count(core),
        RestorePhaseView::Restore(job) => restore_restoring(core, link_resume(job, fs)),
        RestorePhaseView::AfterRestored => restore_ask(
            core,
            RestorePhaseView::Unmark,
            RequestView::Store(StoreRequestView::UnmarkInodeVaulted { inode: core.stat.inode }),
        ),
        RestorePhaseView::AfterFailed => restore_pass(core),
        RestorePhaseView::Unmark => restore_ask(
            core,
            RestorePhaseView::Unindex,
            RequestView::Store(StoreRequestView::RemoveFileFromIndex { path }),
        ),
        RestorePhaseView::Unindex => match core.hash {
            Some(hash) => restore_ask(
                core,
                RestorePhaseView::GetCount,
                RequestView::Store(StoreRequestView::GetCasRefcount { hash }),
            ),
            None => restore_count(core),
        },
        RestorePhaseView::GetCount => match (core.hash, store) {
            (Some(hash), StoreReply::Count(count)) => if count == 0 {
                restore_count(core)
            } else if count == 1 {
                restore_removing(core, hash, removal_start(core.root, hash@))
            } else {
                restore_ask(
                    core,
                    RestorePhaseView::SetCount,
                    RequestView::Store(
                        StoreRequestView::SetCasRefcount { hash, count: (count - 1) as u64 },
                    ),
                )
            },
            _ => restore_count(core),
        },
        RestorePhaseView::SetCount => restore_count(core),
        RestorePhaseView::Remove(job) => match core.hash {
            Some(hash) => restore_removing(core, hash, removal_resume(job, fs)),
            None => restore_count(core),
        },
        RestorePhaseView::RemoveCount => restore_ask(
            core,
            RestorePhaseView::AfterPruned,
            RequestView::Tell(ReportView::Pruned),
        ),
        RestorePhaseView::AfterPruned => restore_count(core),
    }
}

/// The step belongs to a dry run: it is the end of the run, a line for the
/// user, or a request that only looks, with the run waiting for nothing
/// that follows a change.
pub open spec fn restore_step_is_dry(step: RestoreStepView) -> bool {
    match step {
        StepView::Ask(run, request) => {
            &&& run.core.dry_run
            &&& match request {
                RequestView::Fs(request) => crate::requests::fs_reads_only(request),
                RequestView::Store(request) => crate::state::store_reads_only(request),
                RequestView::Tell(_) => true,
            }
            &&& (run.phase is Stat || run.phase is CheckVaulted || run.phase is RecallHash
                || run.phase is LookUp || run.phase is ProbeVault || run.phase is DryRestore
                || run.phase is DryDecrement)
        },
        StepView::Finish(_) => true,
    }
}

/// A dry run of restore changes neither the file tree nor the state
/// store: it begins with a request that only looks, or ends at once.
pub proof fn lemma_dry_restore_starts_dry(root: Seq<char>, entries: Seq<WalkEntry>)
    ensures
        restore_step_is_dry(restore_run_start(root, entries, true)),
{
}

/// A dry run of restore changes neither the file tree nor the state
/// store: whatever the reply, it goes on with a request that only looks or
/// with a line for the user, or ends.
pub proof fn lemma_dry_restore_stays_dry(run: RestoreRunView, request: RequestView, reply: ReplyView)
    requires
        restore_step_is_dry(RestoreStepView::Ask(run, request)),
    ensures
        restore_step_is_dry(restore_resume(run, reply)),
{
}

/// The index of the first entry at `from` or later that may be a file to
/// restore.
fn find_restorable(entries: &Vec<WalkEntry>, from: usize) -> (found: Option<usize>)
    ensures
        match found {
            Some(i) => next_restorable(entries@, from as int) == Some(i as int) && from <= i
                < entries.len(),
            None => next_restorable(entries@, from as int).is_none(),
        },
{
    let mut i = from;
    while i < entries.len()
        invariant
            from <= i,
            next_restorable(entries@, from as int) == next_restorable(entries@, i as int),
        decreases entries.len() - i,
    {
        if entries[i].is_file && !is_temp_file(entries[i].path.as_str()) {
            return Some(i);
        }
        i += 1;
    }
    None
}

fn ask(core: RestoreCore, phase: RestorePhase, request: Request) -> (step: RestoreStep)
    ensures
        step@ == restore_ask(core@, phase@, request@),
{
    Step::Ask(RestoreRun { core, phase }, request)
}

/// The run goes on with the first entry at `from` or later.
fn enter(
    root: String,
    entries: Vec<WalkEntry>,
    dry_run: bool,
    stat: FileStat,
    summary: RestoreSummary,
    from: usize,
) -> (step: RestoreStep)
    requires
        summary.restored <= from,
    ensures
        step@ == restore_enter(
            RestoreCoreView {
                root: root@,
                entries: entries@,
                dry_run,
                at: 0,
                stat,
                hash: None,
                summary,
            },
            from as int,
        ),
{
    match find_restorable(&entries, from) {
        None => Step::Finish(summary),
        Some(i) => {
            let request = FsRequest::Stat { path: entries[i].path.clone() };
            let core = RestoreCore { root, entries, dry_run, at: i, stat, hash: None, summary };
            ask(core, RestorePhase::Stat, Request::Fs(request))
        },
    }
}

/// Starts a restore run over a walk, with the vault at `root`. A walk
/// whose root could not be read is an error, and then nothing is asked
/// for.
pub fn restore_pipeline(root: &str, walk: Walk, dry_run: bool) -> (result: Result<
    RestoreStep,
    WalkError,
>)
    ensures
        match result {
            Ok(step) => walk.root_readable && step@ == restore_run_start(
                root@,
                walk.entries@,
                dry_run,
            ),
            Err(error) => !walk.root_readable && error == WalkError::RootUnreadable,
        },
{
    if !walk.root_readable {
        return Err(WalkError::RootUnreadable);
    }
    Ok(
        enter(
            root.to_owned(),
            walk.entries,
            dry_run,
            FileStat { size: 0, inode: 0, mode: 0, mtime_seconds: 0, mtime_nanos: 0 },
            RestoreSummary { restored: 0, bytes: 0 },
            0,
        ),
    )
}

impl RestoreCore {
    fn path(&self) -> (path: String)
        ensures
            path@ == file_at_work(self@),
    {
        proof {
            use_type_invariant(self);
        }
        self.entries[self.at].path.clone()
    }

    fn pass(self) -> (step: RestoreStep)
        ensures
            step@ == restore_pass(self@),
    {
        proof {
            use_type_invariant(&self);
        }
        let RestoreCore { root, entries, dry_run, at, stat, hash, summary } = self;
        enter(root, entries, dry_run, stat, summary, at + 1)
    }

    fn count(self) -> (step: RestoreStep)
        ensures
            step@ == restore_count(self@),
    {
        proof {
            use_type_invariant(&self);
        }
        let RestoreCore { root, entries, dry_run, at, stat, hash, summary } = self;
        let summary = RestoreSummary {
            restored: summary.restored + 1,
            bytes: summary.bytes.saturating_add(stat.size),
        };
        enter(root, entries, dry_run, stat, summary, at + 1)
    }

    fn begin(self) -> (step: RestoreStep)
        ensures
            step@ == restore_begin(self@),
    {
        let path = self.path();
        if self.dry_run {
            ask(self, RestorePhase::DryRestore, Request::Tell(Report::WouldRestore { path }))
        } else {
            let step = restore_file(path.as_str());
            self.restoring(step)
        }
    }

    fn restoring(self, step: LinkStep) -> (next: RestoreStep)
        ensures
            next@ == restore_restoring(self@, step@),
    {
        match step {
            Step::Ask(job, request) => ask(self, RestorePhase::Restore(job), Request::Fs(request)),
            Step::Finish(Ok(_)) => {
                let report = Report::Restored { path: self.path() };
                ask(self, RestorePhase::AfterRestored, Request::Tell(report))
            },
            Step::Finish(Err(_)) => {
                let report = Report::RestoreFailed { path: self.path() };
                ask(self, RestorePhase::AfterFailed, Request::Tell(report))
            },
        }
    }

    fn removing(self, hash: crate::types::Hash, step: RemovalStep) -> (next: RestoreStep)
        ensures
            next@ == restore_removing(self@, hash, step@),
    {
        match step {
            Step::Ask(job, request) => ask(self, RestorePhase::Remove(job), Request::Fs(request)),
            Step::Finish(_) => ask(
                self,
                RestorePhase::RemoveCount,
                Request::Store(StoreRequest::RemoveCasRefcount { hash }),
            ),
        }
    }
}

impl RestoreRun {
    /// Resumes the run with the reply to its last request.
    pub fn resume(self, reply: Reply) -> (step: RestoreStep)
        ensures
            step@ == restore_resume(self@, reply@),
    {
        let RestoreRun { core, phase } = self;
        proof {
            use_type_invariant(&core);
        }
        let mut core = core;
        let store = into_store_reply(&reply);
        let fs = into_fs_reply(reply);
        match phase {
            RestorePhase::Stat => match fs {
                FsReply::Stat(stat) => {
                    core.stat = stat;
                    ask(
                        core,
                        RestorePhase::CheckVaulted,
                        Request::Store(StoreRequest::IsInodeVaulted { inode: stat.inode }),
                    )
                },
                _ => core.pass(),
            },
            RestorePhase::CheckVaulted => {
                let request = StoreRequest::GetFileMetadata { path: core.path() };
                match store {
                    StoreReply::Flag(true) => ask(
                        core,
                        RestorePhase::RecallHash,
                        Request::Store(request),
                    ),
                    _ => ask(core, RestorePhase::LookUp, Request::Store(request)),
                }
            },
            RestorePhase::RecallHash => {
                match store {
                    StoreReply::Metadata(Some(metadata)) => {
                        core.hash = Some(metadata.hash);
                    },
                    _ => {
                        core.hash = None;
                    },
                }
                core.begin()
            },
            RestorePhase::LookUp => match store {
                StoreReply::Metadata(Some(metadata)) => {
                    core.hash = Some(metadata.hash);
                    let request = FsRequest::Exists {
                        path: shard_path(core.root.as_str(), &metadata.hash),
                    };
                    ask(core, RestorePhase::ProbeVault, Request::Fs(request))
                },
                _ => core.pass(),
            },
            RestorePhase::ProbeVault => {
                if reply_is_yes(&fs) {
                    core.begin()
                } else {
                    core.pass()
                }
            },
            RestorePhase::DryRestore => match core.hash {
                Some(hash) => ask(
                    core,
                    RestorePhase::DryDecrement,
                    Request::Tell(Report::WouldDecrement { hash }),
                ),
                None => core.count(),
            },
            RestorePhase::DryDecrement => core.count(),
            RestorePhase::Restore(job) => {
                let step = job.resume(fs);
                core.restoring(step)
            },
            RestorePhase::AfterRestored => {
                let request = StoreRequest::UnmarkInodeVaulted { inode: core.stat.inode };
                ask(core, RestorePhase::Unmark, Request::Store(request))
            },
            RestorePhase::AfterFailed => core.pass(),
            RestorePhase::Unmark => {
                let request = StoreRequest::RemoveFileFromIndex { path: core.path() };
                ask(core, RestorePhase::Unindex, Request::Store(request))
            },
            RestorePhase::Unindex => match core.hash {
                Some(hash) => ask(
                    core,
                    RestorePhase::GetCount,
                    Request::Store(StoreRequest::GetCasRefcount { hash }),
                ),
                None => core.count(),
            },
            RestorePhase::GetCount => match (core.hash, store) {
                (Some(hash), StoreReply::Count(count)) => {
                    if count == 0 {
                        core.count()
                    } else if count == 1 {
                        let step = remove_from_vault(core.root.as_str(), &hash);
                        core.removing(hash, step)
                    } else {
                        ask(
                            core,
                            RestorePhase::SetCount,
                            Request::Store(
                                StoreRequest::SetCasRefcount { hash, count: count - 1 },
                            ),
                        )
                    }
                },
                _ => core.count(),
            },
            RestorePhase::SetCount => core.count(),
            RestorePhase::Remove(job) => match core.hash {
                Some(hash) => {
                    let step = job.resume(fs);
                    core.removing(hash, step)
                },
                None => core.count(),
            },
            RestorePhase::RemoveCount => ask(
                core,
                RestorePhase::AfterPruned,
                Request::Tell(Report::Pruned),
            ),
            RestorePhase::AfterPruned => core.count(),
        }
    }
}

} // verus!
