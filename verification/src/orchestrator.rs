//! The dedupe run: every group of duplicates is moved into the vault and
//! its files replaced by links to the master.

use vstd::prelude::*;
use vstd::string::*;
use crate::dedupe::{
    compare_files, compare_resume, compare_start, link_resume, replace_start, replace_with_link,
    CompareJob, CompareJobView, CompareStep, CompareStepView, LinkError, LinkJob, LinkJobView,
    LinkStep, LinkType,
};
use crate::paths::{is_temp, is_temp_file};
use crate::pipeline::{
    fs_reply_of, groups_view, into_fs_reply, into_store_reply, store_reply_of, DuplicateGroup,
    GroupView, Reply, ReplyView, Report, ReportView, Request, RequestView,
};
use crate::requests::{
    reply_is_done, reply_is_yes, FsReply, FsReplyView, FsRequest, FsRequestView, Step, StepView,
};
use crate::state::{StoreReply, StoreRequest, StoreRequestView};
use crate::vault::{
    ensure_in_vault, ingest_resume, ingest_start, shard_path, shard_path_of, IngestJob,
    IngestJobView, IngestStep, IngestStepView, VaultError,
};

verus! {

/// How a dedupe run is to go about its work.
#[derive(Debug, Clone, Copy, PartialEq, Eq, Structural)]
pub struct DedupeOptions {
    /// Compare every file byte by byte with the master before it is
    /// replaced.
    pub paranoid: bool,
    /// Touch nothing; tell what would be done.
    pub dry_run: bool,
    /// Where no clone can be made, make a hard link.
    pub allow_unsafe_hardlinks: bool,
}

/// Why a dedupe run was given up.
#[derive(Debug, Clone, Copy, PartialEq, Eq, Structural)]
pub enum DedupeError {
    /// A master could not be taken into the vault.
    Vault(VaultError),
    /// A file could not be replaced, for another reason than that the file
    /// system makes no clones.
    Link(LinkError),
    /// The inode of a file that is now a hard link could not be read.
    ReadLinkedMetadata,
    /// The state store failed.
    Store,
}

/// What a dedupe run keeps from one request to the next, but for what it
/// is waiting for.
pub struct DedupeCore {
    root: String,
    groups: Vec<DuplicateGroup>,
    options: DedupeOptions,
    group: usize,
    member: usize,
    vault_path: String,
    warned: bool,
    verified: bool,
}

/// The mathematical twin of [`DedupeCore`].
pub struct DedupeCoreView {
    /// The vault's directory.
    pub root: Seq<char>,
    pub groups: Seq<GroupView>,
    pub options: DedupeOptions,
    /// The index of the group at work.
    pub group: usize,
    /// The index of the file at work in its group; the first is the
    /// master.
    pub member: usize,
    /// Where the master of the group at work lives in the vault.
    pub vault_path: Seq<char>,
    /// The user has been told that the file system makes no clones.
    pub warned: bool,
    /// The file at work was compared with the master and found equal.
    pub verified: bool,
}

impl DedupeCore {
    #[verifier::type_invariant]
    spec fn at_work_on_a_file(self) -> bool {
        self.group < self.groups.len() && self.member < self.groups[self.group as int].paths.len()
    }
}

impl View for DedupeCore {
    type V = DedupeCoreView;

    closed spec fn view(&self) -> DedupeCoreView {
        DedupeCoreView {
            root: self.root@,
            groups: groups_view(self.groups@),
            options: self.options,
            group: self.group,
            member: self.member,
            vault_path: self.vault_path@,
            warned: self.warned,
            verified: self.verified,
        }
    }
}

/// What a dedupe run is waiting for.
pub enum DedupePhase {
    /// A step of the master's way into the vault.
    Ingest(IngestJob),
    /// Whether the master's old path still exists.
    ProbeMaster,
    /// A step of the comparison of the file at work with the master.
    Verify(CompareJob),
    /// The line that says that the file at work differs from the master or
    /// could not be compared.
    AfterMismatch,
    /// A step of the replacement of the file at work.
    Link(LinkJob),
    /// The metadata of the file at work, now a hard link.
    StatLinked,
    /// The inode of the file at work being marked.
    MarkLinked,
    /// The line that says that the file at work was replaced.
    AfterLinked,
    /// The master being renamed back to its old path.
    RollbackRename,
    /// The master being copied back to its old path.
    RollbackCopy,
    /// The master being removed from the vault after it was copied back.
    RollbackRemove,
    /// The line that says that the master remains in the vault.
    AfterRollbackFailed,
    /// The line that says that the file system makes no clones.
    AfterWarning,
    /// The line that says that the file at work was left as it is.
    AfterSkipped,
    /// The group's count being written.
    SetCount,
    /// Dry run: the line about the master's move.
    DryMove,
    /// Dry run: the line that says that nothing is compared.
    DryNote,
    /// Dry run: the line about the file at work.
    DryMember,
    /// Dry run: the line about the group's count.
    DryCount,
}

/// The mathematical twin of [`DedupePhase`].
pub enum DedupePhaseView {
    Ingest(IngestJobView),
    ProbeMaster,
    Verify(CompareJobView),
    AfterMismatch,
    Link(LinkJobView),
    StatLinked,
    MarkLinked,
    AfterLinked,
    RollbackRename,
    RollbackCopy,
    RollbackRemove,
    AfterRollbackFailed,
    AfterWarning,
    AfterSkipped,
    SetCount,
    DryMove,
    DryNote,
    DryMember,
    DryCount,
}

impl View for DedupePhase {
    type V = DedupePhaseView;

    open spec fn view(&self) -> DedupePhaseView {
        match *self {
            DedupePhase::Ingest(job) => DedupePhaseView::Ingest(job@),
            DedupePhase::ProbeMaster => DedupePhaseView::ProbeMaster,
            DedupePhase::Verify(job) => DedupePhaseView::Verify(job@),
            DedupePhase::AfterMismatch => DedupePhaseView::AfterMismatch,
            DedupePhase::Link(job) => DedupePhaseView::Link(job@),
            DedupePhase::StatLinked => DedupePhaseView::StatLinked,
            DedupePhase::MarkLinked => DedupePhaseView::MarkLinked,
            DedupePhase::AfterLinked => DedupePhaseView::AfterLinked,
            DedupePhase::RollbackRename => DedupePhaseView::RollbackRename,
            DedupePhase::RollbackCopy => DedupePhaseView::RollbackCopy,
            DedupePhase::RollbackRemove => DedupePhaseView::RollbackRemove,
            DedupePhase::AfterRollbackFailed => DedupePhaseView::AfterRollbackFailed,
            DedupePhase::AfterWarning => DedupePhaseView::AfterWarning,
            DedupePhase::AfterSkipped => DedupePhaseView::AfterSkipped,
            DedupePhase::SetCount => DedupePhaseView::SetCount,
            DedupePhase::DryMove => DedupePhaseView::DryMove,
            DedupePhase::DryNote => DedupePhaseView::DryNote,
            DedupePhase::DryMember => DedupePhaseView::DryMember,
            DedupePhase::DryCount => DedupePhaseView::DryCount,
        }
    }
}

/// A dedupe run between two requests.
pub struct DedupeRun {
    core: DedupeCore,
    phase: DedupePhase,
}

/// The mathematical twin of [`DedupeRun`].
pub struct DedupeRunView {
    pub core: DedupeCoreView,
    pub phase: DedupePhaseView,
}

impl View for DedupeRun {
    type V = DedupeRunView;

    closed spec fn view(&self) -> DedupeRunView {
        DedupeRunView { core: self.core@, phase: self.phase@ }
    }
}

pub type DedupeStep = Step<DedupeRun, Request, Result<(), DedupeError>>;

pub type DedupeStepView = StepView<DedupeRunView, RequestView, Result<(), DedupeError>>;

/// The run asks for `request` and waits in `phase`.
pub open spec fn dedupe_ask(
    core: DedupeCoreView,
    phase: DedupePhaseView,
    request: RequestView,
) -> DedupeStepView {
    StepView::Ask(DedupeRunView { core, phase }, request)
}

/// The group at work.
pub open spec fn group_at_work(core: DedupeCoreView) -> GroupView {
    core.groups[core.group as int]
}

/// The path of the file at work.
pub open spec fn path_at_work(core: DedupeCoreView) -> Seq<char> {
    group_at_work(core).paths[core.member as int]
}

/// The path of the master of the group at work: the group's first file.
pub open spec fn master_at_work(core: DedupeCoreView) -> Seq<char> {
    group_at_work(core).paths[0]
}

/// The index of the first group at `from` or later that has two or more
/// files.
pub open spec fn next_duplicates(groups: Seq<GroupView>, from: int) -> Option<int>
    decreases groups.len() - from,
{
    if from < 0 || from >= groups.len() {
        None
    } else if groups[from].paths.len() >= 2 {
        Some(from)
    } else {
        next_duplicates(groups, from + 1)
    }
}

/// How a dedupe run begins: with the first group of two or more files. A
/// run without such a group has nothing to do.
pub open spec fn dedupe_start(
    root: Seq<char>,
    groups: Seq<GroupView>,
    options: DedupeOptions,
) -> DedupeStepView {
    dedupe_enter(
        DedupeCoreView {
            root,
            groups,
            options,
            group: 0,
            member: 0,
            vault_path: Seq::empty(),
            warned: false,
            verified: false,
        },
        0,
    )
}

/// The run goes on with the first group at `from` or later that has two or
/// more files, and ends where there is none. The group's master is its
/// first file. A dry run tells of the master's move; any other run takes
/// the master into the vault.
pub open spec fn dedupe_enter(core: DedupeCoreView, from: int) -> DedupeStepView {
    match next_duplicates(core.groups, from) {
        None => StepView::Finish(Ok(())),
        Some(g) => {
            let hash = core.groups[g].hash;
            let master = core.groups[g].paths[0];
            let vault_path = shard_path_of(core.root, hash@);
            let core = DedupeCoreView {
                group: g as usize,
                member: 0,
                vault_path,
                verified: false,
                ..core
            };
            if core.options.dry_run {
                dedupe_ask(
                    core,
                    DedupePhaseView::DryMove,
                    RequestView::Tell(ReportView::WouldMoveMaster { path: master, vault_path }),
                )
            } else {
                dedupe_ingest(core, ingest_start(core.root, hash@, master))
            }
        },
    }
}

/// The run goes on with a step of the master's way into the vault. Once
/// the master is in, a paranoid run asks whether the master's old path
/// still exists; any other run replaces the old path at once. A master
/// that cannot be taken in ends the run.
pub open spec fn dedupe_ingest(core: DedupeCoreView, step: IngestStepView) -> DedupeStepView {
    match step {
        StepView::Ask(job, request) => dedupe_ask(
            core,
            DedupePhaseView::Ingest(job),
            RequestView::Fs(request),
        ),
        StepView::Finish(Ok(())) => if core.options.paranoid {
            dedupe_ask(
                core,
                DedupePhaseView::ProbeMaster,
                RequestView::Fs(FsRequestView::Exists { path: master_at_work(core) }),
            )
        } else {
            dedupe_member(core, 0, true)
        },
        StepView::Finish(Err(error)) => StepView::Finish(Err(DedupeError::Vault(error))),
    }
}

/// The run turns to the file `m` of the group at work. Past the last file
/// the group's count is written: the number of its files. A paranoid run
/// first compares the file with the master, unless `checked` says that
/// this is settled. The file is then replaced by a link to the master; a
/// file that is the master itself needs no link, and the run turns to the
/// next.
pub open spec fn dedupe_member(core: DedupeCoreView, m: int, checked: bool) -> DedupeStepView
    decreases group_at_work(core).paths.len() - m,
{
    let group = group_at_work(core);
    if m < 0 || m >= group.paths.len() {
        dedupe_ask(
            core,
            DedupePhaseView::SetCount,
            RequestView::Store(
                StoreRequestView::SetCasRefcount {
                    hash: group.hash,
                    count: group.paths.len() as u64,
                },
            ),
        )
    } else if core.options.paranoid && !checked {
        dedupe_verify(DedupeCoreView { member: m as usize, verified: false, ..core })
    } else {
        let core = DedupeCoreView { member: m as usize, ..core };
        match replace_start(core.vault_path, group.paths[m], core.options.allow_unsafe_hardlinks) {
            StepView::Ask(job, request) => dedupe_ask(
                core,
                DedupePhaseView::Link(job),
                RequestView::Fs(request),
            ),
            StepView::Finish(_) => dedupe_member(
                DedupeCoreView { verified: false, ..core },
                m + 1,
                false,
            ),
        }
    }
}

/// The run begins to compare the file at work with the master.
pub open spec fn dedupe_verify(core: DedupeCoreView) -> DedupeStepView {
    match compare_start(core.vault_path, path_at_work(core)) {
        StepView::Ask(job, request) => dedupe_ask(
            core,
            DedupePhaseView::Verify(job),
            RequestView::Fs(request),
        ),
        StepView::Finish(_) => StepView::Finish(Ok(())),
    }
}

/// The run turns to the file after the one at work.
pub open spec fn dedupe_next_member(core: DedupeCoreView) -> DedupeStepView {
    dedupe_member(DedupeCoreView { verified: false, ..core }, core.member + 1, false)
}

/// The run gives the file at work up. With the master the whole group is
/// given up, and no count is written for it.
pub open spec fn dedupe_abandon(core: DedupeCoreView) -> DedupeStepView {
    if core.member == 0 {
        dedupe_enter(core, core.group + 1)
    } else {
        dedupe_next_member(core)
    }
}

/// The run goes on with a step of the comparison. A file that equals the
/// master is replaced. One that differs, or cannot be compared, is told
/// of and given up.
pub open spec fn dedupe_compared(core: DedupeCoreView, step: CompareStepView) -> DedupeStepView {
    match step {
        StepView::Ask(job, request) => dedupe_ask(
            core,
            DedupePhaseView::Verify(job),
            RequestView::Fs(request),
        ),
        StepView::Finish(Ok(true)) => dedupe_member(
            DedupeCoreView { verified: true, ..core },
            core.member as int,
            true,
        ),
        StepView::Finish(Ok(false)) => dedupe_ask(
            core,
            DedupePhaseView::AfterMismatch,
            RequestView::Tell(ReportView::BitRot { path: path_at_work(core) }),
        ),
        StepView::Finish(Err(_)) => dedupe_ask(
            core,
            DedupePhaseView::AfterMismatch,
            RequestView::Tell(ReportView::VerifyFailed { path: path_at_work(core) }),
        ),
    }
}

/// The run tells that the file at work was replaced, unless the file has
/// a staging name, and turns to the next file.
pub open spec fn dedupe_told(core: DedupeCoreView, kind: LinkType) -> DedupeStepView {
    if is_temp(path_at_work(core)) {
        dedupe_next_member(core)
    } else {
        dedupe_ask(
            core,
            DedupePhaseView::AfterLinked,
            RequestView::Tell(
                ReportView::Linked {
                    kind,
                    verified: core.options.paranoid && core.verified,
                    path: path_at_work(core),
                },
            ),
        )
    }
}

/// The run tells that the file at work is left as it is.
pub open spec fn dedupe_skipped(core: DedupeCoreView) -> DedupeStepView {
    dedupe_ask(
        core,
        DedupePhaseView::AfterSkipped,
        RequestView::Tell(ReportView::Skipped { path: path_at_work(core) }),
    )
}

/// The run warns that the file system makes no clones, once, and tells
/// that the file at work is left as it is.
pub open spec fn dedupe_warn(core: DedupeCoreView) -> DedupeStepView {
    if core.warned {
        dedupe_skipped(core)
    } else {
        dedupe_ask(
            DedupeCoreView { warned: true, ..core },
            DedupePhaseView::AfterWarning,
            RequestView::Tell(ReportView::ReflinkUnsupported),
        )
    }
}

/// The run goes on with a step of the replacement of the file at work. A
/// file that became a hard link has its inode marked. Where no clone
/// could be made and hard links are not allowed, the file is left as it
/// is; if it is the master, the master is first moved back out of the
/// vault to its old path. Any other failure ends the run.
pub open spec fn dedupe_linked(core: DedupeCoreView, step: crate::dedupe::LinkStepView) -> DedupeStepView {
    match step {
        StepView::Ask(job, request) => dedupe_ask(
            core,
            DedupePhaseView::Link(job),
            RequestView::Fs(request),
        ),
        StepView::Finish(Ok(Some(LinkType::HardLink))) => dedupe_ask(
            core,
            DedupePhaseView::StatLinked,
            RequestView::Fs(FsRequestView::Stat { path: path_at_work(core) }),
        ),
        StepView::Finish(Ok(Some(LinkType::Reflink))) => dedupe_told(core, LinkType::Reflink),
        StepView::Finish(Ok(None)) => dedupe_next_member(core),
        StepView::Finish(Err(LinkError::ReflinkUnsupported)) => if core.member == 0 {
            dedupe_ask(
                core,
                DedupePhaseView::RollbackRename,
                RequestView::Fs(
                    FsRequestView::Rename { from: core.vault_path, to: master_at_work(core) },
                ),
            )
        } else {
            dedupe_warn(core)
        },
        StepView::Finish(Err(error)) => StepView::Finish(Err(DedupeError::Link(error))),
    }
}

/// The dry run tells of the file after the one at work, or, past the last
/// file, of the group's count.
pub open spec fn dedupe_dry_next(core: DedupeCoreView) -> DedupeStepView {
    let group = group_at_work(core);
    if core.member + 1 < group.paths.len() {
        let core = DedupeCoreView { member: (core.member + 1) as usize, ..core };
        dedupe_dry_member(core)
    } else {
        dedupe_ask(
            core,
            DedupePhaseView::DryCount,
            RequestView::Tell(ReportView::WouldUpdateState { hash: group.hash }),
        )
    }
}

/// The dry run tells of the file at work.
pub open spec fn dedupe_dry_member(core: DedupeCoreView) -> DedupeStepView {
    dedupe_ask(
        core,
        DedupePhaseView::DryMember,
        RequestView::Tell(
            ReportView::WouldDedupe { path: path_at_work(core), vault_path: core.vault_path },
        ),
    )
}

/// One step of a dedupe run: what it does with the reply to its last
/// request.
pub open spec fn dedupe_resume(run: DedupeRunView, reply: ReplyView) -> DedupeStepView {
    let core = run.core;
    let fs = fs_reply_of(reply);
    let done = fs is Done;
    let yes = fs == FsReplyView::Flag(true);
    match run.phase {
        DedupePhaseView::Ingest(job) => dedupe_ingest(core, ingest_resume(job, fs)),
        DedupePhaseView::ProbeMaster => if yes {
            dedupe_verify(core)
        } else {
            dedupe_member(core, 0, true)
        },
        DedupePhaseView::Verify(job) => dedupe_compared(core, compare_resume(job, fs)),
        DedupePhaseView::AfterMismatch => dedupe_abandon(core),
        DedupePhaseView::Link(job) => dedupe_linked(core, link_resume(job, fs)),
        DedupePhaseView::StatLinked => match fs {
            FsReplyView::Stat(stat) => dedupe_ask(
                core,
                DedupePhaseView::MarkLinked,
                RequestView::Store(StoreRequestView::MarkInodeVaulted { inode: stat.inode }),
            ),
            _ => StepView::Finish(Err(DedupeError::ReadLinkedMetadata)),
        },
        DedupePhaseView::MarkLinked => if store_reply_of(reply) is Done {
            dedupe_told(core, LinkType::HardLink)
        } else {
            StepView::Finish(Err(DedupeError::Store))
        },
        DedupePhaseView::AfterLinked => dedupe_next_member(core),
        DedupePhaseView::RollbackRename => if done {
            dedupe_warn(core)
        } else {
            dedupe_ask(
                core,
                DedupePhaseView::RollbackCopy,
                RequestView::Fs(
                    FsRequestView::CopyFile { from: core.vault_path, to: master_at_work(core) },
                ),
            )
        },
        DedupePhaseView::RollbackCopy => if done {
            dedupe_ask(
                core,
                DedupePhaseView::RollbackRemove,
                RequestView::Fs(FsRequestView::RemoveFile { path: core.vault_path }),
            )
        } else {
            dedupe_ask(
                core,
                DedupePhaseView::AfterRollbackFailed,
                RequestView::Tell(ReportView::RollbackFailed { vault_path: core.vault_path }),
            )
        },
        DedupePhaseView::RollbackRemove => if done {
            dedupe_warn(core)
        } else {
            dedupe_ask(
                core,
                DedupePhaseView::AfterRollbackFailed,
                RequestView::Tell(ReportView::RollbackFailed { vault_path: core.vault_path }),
            )
        },
        DedupePhaseView::AfterRollbackFailed => dedupe_warn(core),
        DedupePhaseView::AfterWarning => dedupe_skipped(core),
        DedupePhaseView::AfterSkipped => dedupe_abandon(core),
        DedupePhaseView::SetCount => if store_reply_of(reply) is Done {
            dedupe_enter(core, core.group + 1)
        } else {
            StepView::Finish(Err(DedupeError::Store))
        },
        DedupePhaseView::DryMove => if core.options.paranoid {
            dedupe_ask(
                core,
                DedupePhaseView::DryNote,
                RequestView::Tell(ReportView::SkippingVerification),
            )
        } else {
            dedupe_dry_member(core)
        },
        DedupePhaseView::DryNote => dedupe_dry_member(core),
        DedupePhaseView::DryMember => dedupe_dry_next(core),
        DedupePhaseView::DryCount => dedupe_enter(core, core.group + 1),
    }
}

/// A file that is found to differ from the master is told of and never
/// replaced: when the comparison ends with a difference, the run tells of
/// bit rot, and after that line it gives the file up.
pub proof fn lemma_difference_is_told_and_file_kept(core: DedupeCoreView, reply: ReplyView)
    ensures
        dedupe_compared(core, CompareStepView::Finish(Ok(false))) == dedupe_ask(
            core,
            DedupePhaseView::AfterMismatch,
            RequestView::Tell(ReportView::BitRot { path: path_at_work(core) }),
        ),
        dedupe_resume(
            DedupeRunView { core, phase: DedupePhaseView::AfterMismatch },
            reply,
        ) == dedupe_abandon(core),
{
}

/// The step belongs to a dry run: it is the end of the run, or a line for
/// the user, with the run waiting for nothing else.
pub open spec fn dedupe_step_is_dry(step: DedupeStepView) -> bool {
    match step {
        StepView::Ask(run, request) => run.core.options.dry_run && request is Tell && (run.phase
            is DryMove || run.phase is DryNote || run.phase is DryMember || run.phase is DryCount),
        StepView::Finish(result) => result is Ok,
    }
}

proof fn lemma_dry_enter(core: DedupeCoreView, from: int)
    requires
        core.options.dry_run,
    ensures
        dedupe_step_is_dry(dedupe_enter(core, from)),
{
}

/// A dry run touches neither the file tree nor the state store: it begins
/// with a line for the user, or ends at once.
pub proof fn lemma_dry_run_starts_dry(root: Seq<char>, groups: Seq<GroupView>, options: DedupeOptions)
    requires
        options.dry_run,
    ensures
        dedupe_step_is_dry(dedupe_start(root, groups, options)),
{
    lemma_dry_enter(
        DedupeCoreView {
            root,
            groups,
            options,
            group: 0,
            member: 0,
            vault_path: Seq::empty(),
            warned: false,
            verified: false,
        },
        0,
    );
}

/// A dry run touches neither the file tree nor the state store: whatever
/// the reply to a line, it goes on with another line, or ends without an
/// error.
pub proof fn lemma_dry_run_stays_dry(run: DedupeRunView, request: RequestView, reply: ReplyView)
    requires
        dedupe_step_is_dry(DedupeStepView::Ask(run, request)),
    ensures
        dedupe_step_is_dry(dedupe_resume(run, reply)),
{
    lemma_dry_enter(run.core, run.core.group + 1);
}

/// The index of the first group at `from` or later that has two or more
/// files.
fn find_duplicates(groups: &Vec<DuplicateGroup>, from: usize) -> (found: Option<usize>)
    ensures
        match found {
            Some(g) => next_duplicates(groups_view(groups@), from as int) == Some(g as int) && g
                < groups.len() && groups[g as int].paths.len() >= 2,
            None => next_duplicates(groups_view(groups@), from as int).is_none(),
        },
{
    let mut g = from;
    while g < groups.len()
        invariant
            from <= g,
            next_duplicates(groups_view(groups@), from as int) == next_duplicates(
                groups_view(groups@),
                g as int,
            ),
        decreases groups.len() - g,
    {
        assert(groups_view(groups@)[g as int] == groups[g as int]@);
        if groups[g].paths.len() >= 2 {
            return Some(g);
        }
        g += 1;
    }
    None
}

fn ask(core: DedupeCore, phase: DedupePhase, request: Request) -> (step: DedupeStep)
    ensures
        step@ == dedupe_ask(core@, phase@, request@),
{
    Step::Ask(DedupeRun { core, phase }, request)
}

/// The run turns to the group `g`.
fn open_group(
    root: String,
    groups: Vec<DuplicateGroup>,
    options: DedupeOptions,
    warned: bool,
    g: usize,
) -> (step: DedupeStep)
    requires
        g < groups.len(),
        groups[g as int].paths.len() >= 2,
    ensures
        step@ == ({
            let hash = groups[g as int].hash;
            let master = groups[g as int].paths[0]@;
            let vault_path = shard_path_of(root@, hash@);
            let core = DedupeCoreView {
                root: root@,
                groups: groups_view(groups@),
                options,
                group: g,
                member: 0,
                vault_path,
                warned,
                verified: false,
            };
            if options.dry_run {
                dedupe_ask(
                    core,
                    DedupePhaseView::DryMove,
                    RequestView::Tell(ReportView::WouldMoveMaster { path: master, vault_path }),
                )
            } else {
                dedupe_ingest(core, ingest_start(root@, hash@, master))
            }
        }),
{
    let vault_path = shard_path(root.as_str(), &groups[g].hash);
    let core = DedupeCore {
        root,
        groups,
        options,
        group: g,
        member: 0,
        vault_path,
        warned,
        verified: false,
    };
    if options.dry_run {
        let report = Report::WouldMoveMaster {
            path: core.groups[g].paths[0].clone(),
            vault_path: core.vault_path.clone(),
        };
        ask(core, DedupePhase::DryMove, Request::Tell(report))
    } else {
        let step = ensure_in_vault(
            core.root.as_str(),
            &core.groups[g].hash,
            core.groups[g].paths[0].as_str(),
        );
        core.ingest(step)
    }
}

/// Starts a dedupe run over `groups`, with the vault at `root`.
pub fn dedupe_groups(root: &str, groups: Vec<DuplicateGroup>, options: DedupeOptions) -> (step:
    DedupeStep)
    ensures
        step@ == dedupe_start(root@, groups_view(groups@), options),
{
    match find_duplicates(&groups, 0) {
        None => Step::Finish(Ok(())),
        Some(g) => {
            assert(groups_view(groups@)[g as int] == groups[g as int]@);
            assert(groups[g as int]@.paths[0] == groups[g as int].paths[0]@);
            open_group(root.to_owned(), groups, options, false, g)
        },
    }
}

impl DedupeCore {
    proof fn lemma_at_work(&self)
        requires
            self.group < self.groups.len(),
        ensures
            group_at_work(self@) == self.groups[self.group as int]@,
            group_at_work(self@).paths.len() == self.groups[self.group as int].paths.len(),
            forall|m: int|
                0 <= m < self.groups[self.group as int].paths.len() ==> group_at_work(
                    self@,
                ).paths[m] == #[trigger] self.groups[self.group as int].paths[m]@,
    {
    }

    fn path_at(&self, m: usize) -> (path: String)
        requires
            m < group_at_work(self@).paths.len(),
        ensures
            path@ == group_at_work(self@).paths[m as int],
    {
        proof {
            use_type_invariant(self);
            self.lemma_at_work();
        }
        self.groups[self.group].paths[m].clone()
    }

    fn path(&self) -> (path: String)
        ensures
            path@ == path_at_work(self@),
    {
        proof {
            use_type_invariant(self);
            self.lemma_at_work();
        }
        self.path_at(self.member)
    }

    fn master(&self) -> (path: String)
        ensures
            path@ == master_at_work(self@),
    {
        proof {
            use_type_invariant(self);
            self.lemma_at_work();
        }
        self.path_at(0)
    }

    fn enter(self, from: usize) -> (step: DedupeStep)
        ensures
            step@ == dedupe_enter(self@, from as int),
    {
        let DedupeCore { root, groups, options, group, member, vault_path, warned, verified } = self;
        match find_duplicates(&groups, from) {
            None => Step::Finish(Ok(())),
            Some(g) => {
                assert(groups_view(groups@)[g as int] == groups[g as int]@);
                assert(groups[g as int]@.paths[0] == groups[g as int].paths[0]@);
                open_group(root, groups, options, warned, g)
            },
        }
    }

    fn ingest(self, step: IngestStep) -> (next: DedupeStep)
        ensures
            next@ == dedupe_ingest(self@, step@),
    {
        match step {
            Step::Ask(job, request) => ask(self, DedupePhase::Ingest(job), Request::Fs(request)),
            Step::Finish(Ok(())) => {
                if self.options.paranoid {
                    let request = FsRequest::Exists { path: self.master() };
                    ask(self, DedupePhase::ProbeMaster, Request::Fs(request))
                } else {
                    self.member(0, true)
                }
            },
            Step::Finish(Err(error)) => Step::Finish(Err(DedupeError::Vault(error))),
        }
    }

    fn member(self, m: usize, checked: bool) -> (step: DedupeStep)
        ensures
            step@ == dedupe_member(self@, m as int, checked),
        decreases group_at_work(self@).paths.len() - m,
    {
        proof {
            use_type_invariant(&self);
            self.lemma_at_work();
        }
        let mut core = self;
        let len = core.groups[core.group].paths.len();
        if m >= len {
            let request = StoreRequest::SetCasRefcount {
                hash: core.groups[core.group].hash,
                count: len as u64,
            };
            return ask(core, DedupePhase::SetCount, Request::Store(request));
        }
        core.member = m;
        if core.options.paranoid && !checked {
            core.verified = false;
            return core.verify();
        }
        let target = core.path();
        match replace_with_link(
            core.vault_path.as_str(),
            target.as_str(),
            core.options.allow_unsafe_hardlinks,
        ) {
            Step::Ask(job, request) => ask(core, DedupePhase::Link(job), Request::Fs(request)),
            Step::Finish(_) => {
                core.verified = false;
                core.member(m + 1, false)
            },
        }
    }

    fn verify(self) -> (step: DedupeStep)
        ensures
            step@ == dedupe_verify(self@),
    {
        let target = self.path();
        match compare_files(self.vault_path.as_str(), target.as_str()) {
            Step::Ask(job, request) => ask(self, DedupePhase::Verify(job), Request::Fs(request)),
            Step::Finish(_) => Step::Finish(Ok(())),
        }
    }

    fn next_member(self) -> (step: DedupeStep)
        ensures
            step@ == dedupe_next_member(self@),
    {
        proof {
            use_type_invariant(&self);
        }
        let mut core = self;
        core.verified = false;
        let m = core.member + 1;
        core.member(m, false)
    }

    fn abandon(self) -> (step: DedupeStep)
        ensures
            step@ == dedupe_abandon(self@),
    {
        proof {
            use_type_invariant(&self);
        }
        if self.member == 0 {
            let from = self.group + 1;
            self.enter(from)
        } else {
            self.next_member()
        }
    }

    fn compared(self, step: CompareStep) -> (next: DedupeStep)
        ensures
            next@ == dedupe_compared(self@, step@),
    {
        proof {
            use_type_invariant(&self);
        }
        match step {
            Step::Ask(job, request) => ask(self, DedupePhase::Verify(job), Request::Fs(request)),
            Step::Finish(Ok(true)) => {
                let mut core = self;
                core.verified = true;
                let m = core.member;
                core.member(m, true)
            },
            Step::Finish(Ok(false)) => {
                let report = Report::BitRot { path: self.path() };
                ask(self, DedupePhase::AfterMismatch, Request::Tell(report))
            },
            Step::Finish(Err(_)) => {
                let report = Report::VerifyFailed { path: self.path() };
                ask(self, DedupePhase::AfterMismatch, Request::Tell(report))
            },
        }
    }

    fn told(self, kind: LinkType) -> (step: DedupeStep)
        ensures
            step@ == dedupe_told(self@, kind),
    {
        let path = self.path();
        if is_temp_file(path.as_str()) {
            self.next_member()
        } else {
            let report = Report::Linked {
                kind,
                verified: self.options.paranoid && self.verified,
                path,
            };
            ask(self, DedupePhase::AfterLinked, Request::Tell(report))
        }
    }

    fn skipped(self) -> (step: DedupeStep)
        ensures
            step@ == dedupe_skipped(self@),
    {
        let report = Report::Skipped { path: self.path() };
        ask(self, DedupePhase::AfterSkipped, Request::Tell(report))
    }

    fn warn(self) -> (step: DedupeStep)
        ensures
            step@ == dedupe_warn(self@),
    {
        proof {
            use_type_invariant(&self);
        }
        if self.warned {
            self.skipped()
        } else {
            let mut core = self;
            core.warned = true;
            ask(core, DedupePhase::AfterWarning, Request::Tell(Report::ReflinkUnsupported))
        }
    }

    fn linked(self, step: LinkStep) -> (next: DedupeStep)
        ensures
            next@ == dedupe_linked(self@, step@),
    {
        match step {
            Step::Ask(job, request) => ask(self, DedupePhase::Link(job), Request::Fs(request)),
            Step::Finish(Ok(Some(LinkType::HardLink))) => {
                let request = FsRequest::Stat { path: self.path() };
                ask(self, DedupePhase::StatLinked, Request::Fs(request))
            },
            Step::Finish(Ok(Some(LinkType::Reflink))) => self.told(LinkType::Reflink),
            Step::Finish(Ok(None)) => self.next_member(),
            Step::Finish(Err(LinkError::ReflinkUnsupported)) => {
                if self.member == 0 {
                    let request = FsRequest::Rename {
                        from: self.vault_path.clone(),
                        to: self.master(),
                    };
                    ask(self, DedupePhase::RollbackRename, Request::Fs(request))
                } else {
                    self.warn()
                }
            },
            Step::Finish(Err(error)) => Step::Finish(Err(DedupeError::Link(error))),
        }
    }

    fn dry_member(self) -> (step: DedupeStep)
        ensures
            step@ == dedupe_dry_member(self@),
    {
        let report = Report::WouldDedupe { path: self.path(), vault_path: self.vault_path.clone() };
        ask(self, DedupePhase::DryMember, Request::Tell(report))
    }

    fn dry_next(self) -> (step: DedupeStep)
        ensures
            step@ == dedupe_dry_next(self@),
    {
        proof {
            use_type_invariant(&self);
            self.lemma_at_work();
        }
        let mut core = self;
        if core.member + 1 < core.groups[core.group].paths.len() {
            core.member = core.member + 1;
            core.dry_member()
        } else {
            let report = Report::WouldUpdateState { hash: core.groups[core.group].hash };
            ask(core, DedupePhase::DryCount, Request::Tell(report))
        }
    }

    fn rollback_failed(self) -> (step: DedupeStep)
        ensures
            step@ == dedupe_ask(
                self@,
                DedupePhaseView::AfterRollbackFailed,
                RequestView::Tell(ReportView::RollbackFailed { vault_path: self@.vault_path }),
            ),
    {
        let report = Report::RollbackFailed { vault_path: self.vault_path.clone() };
        ask(self, DedupePhase::AfterRollbackFailed, Request::Tell(report))
    }
}

impl DedupeRun {
    /// Resumes the run with the reply to its last request.
    pub fn resume(self, reply: Reply) -> (step: DedupeStep)
        ensures
            step@ == dedupe_resume(self@, reply@),
    {
        let DedupeRun { core, phase } = self;
        proof {
            use_type_invariant(&core);
        }
        let store = into_store_reply(&reply);
        let fs = into_fs_reply(reply);
        let done = reply_is_done(&fs);
        let yes = reply_is_yes(&fs);
        match phase {
            DedupePhase::Ingest(job) => {
                let step = job.resume(fs);
                core.ingest(step)
            },
            DedupePhase::ProbeMaster => {
                if yes {
                    core.verify()
                } else {
                    core.member(0, true)
                }
            },
            DedupePhase::Verify(job) => {
                let step = job.resume(fs);
                core.compared(step)
            },
            DedupePhase::AfterMismatch => core.abandon(),
            DedupePhase::Link(job) => {
                let step = job.resume(fs);
                core.linked(step)
            },
            DedupePhase::StatLinked => match fs {
                FsReply::Stat(stat) => ask(
                    core,
                    DedupePhase::MarkLinked,
                    Request::Store(StoreRequest::MarkInodeVaulted { inode: stat.inode }),
                ),
                _ => Step::Finish(Err(DedupeError::ReadLinkedMetadata)),
            },
            DedupePhase::MarkLinked => match store {
                StoreReply::Done => core.told(LinkType::HardLink),
                _ => Step::Finish(Err(DedupeError::Store)),
            },
            DedupePhase::AfterLinked => core.next_member(),
            DedupePhase::RollbackRename => {
                if done {
                    core.warn()
                } else {
                    let request = FsRequest::CopyFile {
                        from: core.vault_path.clone(),
                        to: core.master(),
                    };
                    ask(core, DedupePhase::RollbackCopy, Request::Fs(request))
                }
            },
            DedupePhase::RollbackCopy => {
                if done {
                    let request = FsRequest::RemoveFile { path: core.vault_path.clone() };
                    ask(core, DedupePhase::RollbackRemove, Request::Fs(request))
                } else {
                    core.rollback_failed()
                }
            },
            DedupePhase::RollbackRemove => {
                if done {
                    core.warn()
                } else {
                    core.rollback_failed()
                }
            },
            DedupePhase::AfterRollbackFailed => core.warn(),
            DedupePhase::AfterWarning => core.skipped(),
            DedupePhase::AfterSkipped => core.abandon(),
            DedupePhase::SetCount => match store {
                StoreReply::Done => {
                    let from = core.group + 1;
                    core.enter(from)
                },
                _ => Step::Finish(Err(DedupeError::Store)),
            },
            DedupePhase::DryMove => {
                if core.options.paranoid {
                    ask(core, DedupePhase::DryNote, Request::Tell(Report::SkippingVerification))
                } else {
                    core.dry_member()
                }
            },
            DedupePhase::DryNote => core.dry_member(),
            DedupePhase::DryMember => core.dry_next(),
            DedupePhase::DryCount => {
                let from = core.group + 1;
                core.enter(from)
            },
        }
    }
}

} // verus!
