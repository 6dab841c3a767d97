//! The link engine: replacing a file by a link to its master, restoring an
//! independent copy, and comparing two files byte by byte.

use vstd::prelude::*;
use vstd::string::*;
use crate::paths::{disarmed, release_request, temp_of, temp_path, TempCleanup, TempCleanupView};
use crate::requests::{
    clone_bytes, names_view, reply_is_done, reply_is_yes, xattrs_view, FileStat, FsReply,
    FsReplyView, FsRequest, FsRequestView, Step, StepView, Xattr, XattrView,
};

verus! {

/// How a file shares storage with its master.
#[derive(Debug, Clone, Copy, PartialEq, Eq, Structural)]
pub enum LinkType {
    /// A copy-on-write clone: an inode of its own, shared extents.
    Reflink,
    /// A second name of the master's inode.
    HardLink,
}

/// Why a file could not be replaced or restored. All but
/// `ReflinkUnsupported` name the operation that failed.
#[derive(Debug, Clone, Copy, PartialEq, Eq, Structural)]
pub enum LinkError {
    ReadTargetMetadata,
    RemoveStaleTemp,
    /// The file system made no clone, and hard links were not allowed.
    ReflinkUnsupported,
    CreateHardLink,
    CopyBytes,
    ReplaceTarget,
    RestorePermissions,
    RestoreMtime,
}

/// Which reply a link job is waiting for.
#[derive(Debug, Clone, Copy, PartialEq, Eq, Structural)]
pub enum LinkPhase {
    /// The target's metadata.
    Stat,
    /// Whether there is a target at all.
    ProbeTarget,
    /// The master's metadata, where the target's path is vacant.
    StatMaster,
    /// The names of the target's extended attributes.
    ListNames,
    /// The value of the attribute under the cursor.
    ReadValue,
    /// Whether a staged file was left behind.
    ProbeTemp,
    /// The stale staged file being removed.
    ClearTemp,
    /// The clone of the master at the staging name.
    Reflink,
    /// After a failed clone: whether it left a staged file.
    ProbeFailedClone,
    /// After a failed clone: its staged file being removed.
    DropFailedClone,
    /// The hard link to the master at the staging name.
    HardLink,
    /// The target's bytes being copied to the staging name.
    CopyBytes,
    /// The staged file being renamed onto the target.
    Swap,
    /// The permissions being put back.
    Permissions,
    /// The modification time being put back.
    Mtime,
    /// The attribute under the cursor being put back.
    WriteValue,
    /// Leaving with an error: whether the staged file is still there.
    CleanupProbe(LinkError),
    /// Leaving with an error: the staged file being removed.
    CleanupRemove(LinkError),
}

/// A file being replaced by a link to its master, or being restored to an
/// independent copy of itself.
pub struct LinkJob {
    master: Option<String>,
    target: String,
    temp: String,
    allow_unsafe_hardlinks: bool,
    guard: Option<TempCleanup>,
    source: String,
    stat: FileStat,
    names: Vec<Vec<u8>>,
    xattrs: Vec<Xattr>,
    cursor: usize,
    made: Option<LinkType>,
    phase: LinkPhase,
}

/// The mathematical twin of [`LinkJob`].
pub struct LinkJobView {
    /// The master to link to; `None` when the target is being restored.
    pub master: Option<Seq<char>>,
    pub target: Seq<char>,
    /// The staging name.
    pub temp: Seq<char>,
    pub allow_unsafe_hardlinks: bool,
    pub guard: Option<TempCleanupView>,
    /// The file whose metadata is recorded: the target, or the master
    /// where the target's path is vacant.
    pub source: Seq<char>,
    /// The recorded metadata.
    pub stat: FileStat,
    /// The names of the recorded file's attributes, as they were listed.
    pub names: Seq<Seq<u8>>,
    /// The attributes whose values could be read, in the order of `names`.
    pub xattrs: Seq<XattrView>,
    /// The next of `names` to read, or the next of `xattrs` to put back.
    pub cursor: usize,
    /// The link that has been staged.
    pub made: Option<LinkType>,
    pub phase: LinkPhase,
}

impl View for LinkJob {
    type V = LinkJobView;

    closed spec fn view(&self) -> LinkJobView {
        LinkJobView {
            master: match self.master {
                Some(m) => Some(m@),
                None => None,
            },
            target: self.target@,
            temp: self.temp@,
            allow_unsafe_hardlinks: self.allow_unsafe_hardlinks,
            guard: match self.guard {
                Some(g) => Some(g@),
                None => None,
            },
            source: self.source@,
            stat: self.stat,
            names: names_view(self.names@),
            xattrs: xattrs_view(self.xattrs@),
            cursor: self.cursor,
            made: self.made,
            phase: self.phase,
        }
    }
}

pub type LinkStep = Step<LinkJob, FsRequest, Result<Option<LinkType>, LinkError>>;

pub type LinkStepView = StepView<LinkJobView, FsRequestView, Result<Option<LinkType>, LinkError>>;

/// The metadata of a file that has not been looked at yet.
pub open spec fn no_stat() -> FileStat {
    FileStat { size: 0, inode: 0, mode: 0, mtime_seconds: 0, mtime_nanos: 0 }
}

/// A link job on `target` that has asked for the target's metadata.
pub open spec fn link_begin(master: Option<Seq<char>>, target: Seq<char>, allow: bool) -> LinkStepView {
    StepView::Ask(
        LinkJobView {
            master,
            target,
            temp: temp_of(target),
            allow_unsafe_hardlinks: allow,
            guard: None,
            source: target,
            stat: no_stat(),
            names: Seq::empty(),
            xattrs: Seq::empty(),
            cursor: 0,
            made: None,
            phase: LinkPhase::Stat,
        },
        FsRequestView::Stat { path: target },
    )
}

/// How replacing `target` by a link to `master` begins. A file is never
/// replaced by a link to itself: with equal paths nothing is asked for and
/// the result is `Ok(None)`.
pub open spec fn replace_start(master: Seq<char>, target: Seq<char>, allow: bool) -> LinkStepView {
    if master == target {
        StepView::Finish(Ok(None))
    } else {
        link_begin(Some(master), target, allow)
    }
}

/// How restoring `target` begins.
pub open spec fn restore_start(target: Seq<char>) -> LinkStepView {
    link_begin(None, target, false)
}

/// Leaving a link job with an error: first the guard's cleanup, where a
/// guard is armed.
pub open spec fn link_leave(job: LinkJobView, error: LinkError) -> LinkStepView {
    match release_request(job.guard) {
        Some(request) => StepView::Ask(
            LinkJobView { phase: LinkPhase::CleanupProbe(error), ..job },
            request,
        ),
        None => StepView::Finish(Err(error)),
    }
}

/// With the metadata of the file to record in hand, the job asks for the
/// names of the file's attributes.
pub open spec fn link_list(job: LinkJobView, stat: FileStat) -> LinkStepView {
    StepView::Ask(
        LinkJobView { stat, phase: LinkPhase::ListNames, ..job },
        FsRequestView::ListXattrs { path: job.source },
    )
}

/// Reading the value of the attribute under the cursor, or, past the last
/// name, going on to the staging name.
pub open spec fn link_next_value(job: LinkJobView) -> LinkStepView {
    if job.cursor < job.names.len() {
        StepView::Ask(
            LinkJobView { phase: LinkPhase::ReadValue, ..job },
            FsRequestView::GetXattr { path: job.source, name: job.names[job.cursor as int] },
        )
    } else {
        StepView::Ask(
            LinkJobView { phase: LinkPhase::ProbeTemp, ..job },
            FsRequestView::Exists { path: job.temp },
        )
    }
}

/// Filling the staging name, under a fresh guard: with a clone of the
/// master, or, when restoring, with a copy of the target's own bytes.
pub open spec fn link_fill(job: LinkJobView) -> LinkStepView {
    let guard = Some(TempCleanupView { path: job.temp, armed: true });
    match job.master {
        Some(master) => StepView::Ask(
            LinkJobView { guard, phase: LinkPhase::Reflink, ..job },
            FsRequestView::Reflink { from: master, to: job.temp },
        ),
        None => StepView::Ask(
            LinkJobView { guard, phase: LinkPhase::CopyBytes, ..job },
            FsRequestView::CopyBytes { from: job.target, to: job.temp },
        ),
    }
}

/// After a failed clone and the removal of what it left: the hard link,
/// where that is allowed, and the refusal, where it is not.
pub open spec fn link_fall_back(job: LinkJobView) -> LinkStepView {
    if job.allow_unsafe_hardlinks && job.master.is_some() {
        StepView::Ask(
            LinkJobView { phase: LinkPhase::HardLink, ..job },
            FsRequestView::HardLink { from: job.master.unwrap(), to: job.temp },
        )
    } else {
        link_leave(job, LinkError::ReflinkUnsupported)
    }
}

/// Renaming the staged file onto the target.
pub open spec fn link_swap(job: LinkJobView, made: Option<LinkType>) -> LinkStepView {
    StepView::Ask(
        LinkJobView { made, phase: LinkPhase::Swap, ..job },
        FsRequestView::Rename { from: job.temp, to: job.target },
    )
}

/// Putting back the attribute under the cursor, or, past the last one,
/// finishing with the link that was made.
pub open spec fn link_next_attr(job: LinkJobView) -> LinkStepView {
    if job.cursor < job.xattrs.len() {
        StepView::Ask(
            LinkJobView { phase: LinkPhase::WriteValue, ..job },
            FsRequestView::SetXattr {
                path: job.target,
                name: job.xattrs[job.cursor as int].name,
                value: job.xattrs[job.cursor as int].value,
            },
        )
    } else {
        StepView::Finish(Ok(job.made))
    }
}

/// One step of a link job: what it does with the reply to its last request.
///
/// The target's permissions, modification time and extended attributes are
/// recorded first; attributes that cannot be listed or read are left out.
/// Where a file is to be replaced and there is no file at the target's
/// path, as at the old path of a file that has just become the master,
/// the metadata is recorded from the master instead, and the link is made
/// at the vacant path.
/// A stale staged file is removed. The staging name is then filled and
/// renamed onto the target, so that the target is at every moment either
/// the old file or the new one. Replacing, the staged file is a clone of
/// the master or, where no clone can be made and hard links are allowed, a
/// hard link to it; where they are not allowed the job fails with
/// `ReflinkUnsupported`. Restoring, the staged file is a byte copy of the
/// target. After the rename the recorded permissions, then the
/// modification time, then each attribute are put back; a failure to put
/// back an attribute is not an error. A failure between filling and
/// renaming removes the staged file before the error is returned.
pub open spec fn link_resume(job: LinkJobView, reply: FsReplyView) -> LinkStepView {
    let done = reply is Done;
    let yes = reply == FsReplyView::Flag(true);
    match job.phase {
        LinkPhase::Stat => match reply {
            FsReplyView::Stat(stat) => link_list(job, stat),
            _ => if job.master.is_some() {
                StepView::Ask(
                    LinkJobView { phase: LinkPhase::ProbeTarget, ..job },
                    FsRequestView::Exists { path: job.target },
                )
            } else {
                StepView::Finish(Err(LinkError::ReadTargetMetadata))
            },
        },
        LinkPhase::ProbeTarget => match job.master {
            Some(master) => if yes {
                StepView::Finish(Err(LinkError::ReadTargetMetadata))
            } else {
                StepView::Ask(
                    LinkJobView { source: master, phase: LinkPhase::StatMaster, ..job },
                    FsRequestView::Stat { path: master },
                )
            },
            None => StepView::Finish(Err(LinkError::ReadTargetMetadata)),
        },
        LinkPhase::StatMaster => match reply {
            FsReplyView::Stat(stat) => link_list(job, stat),
            _ => StepView::Finish(Err(LinkError::ReadTargetMetadata)),
        },
        LinkPhase::ListNames => match reply {
            FsReplyView::Names(names) => link_next_value(LinkJobView { names, cursor: 0, ..job }),
            _ => link_next_value(LinkJobView { names: Seq::empty(), cursor: 0, ..job }),
        },
        LinkPhase::ReadValue => if job.cursor < job.names.len() {
            let cursor = (job.cursor + 1) as usize;
            match reply {
                FsReplyView::Value(Some(value)) => link_next_value(
                    LinkJobView {
                        xattrs: job.xattrs.push(
                            XattrView { name: job.names[job.cursor as int], value },
                        ),
                        cursor,
                        ..job
                    },
                ),
                _ => link_next_value(LinkJobView { cursor, ..job }),
            }
        } else {
            link_next_value(job)
        },
        LinkPhase::ProbeTemp => if yes {
            StepView::Ask(
                LinkJobView { phase: LinkPhase::ClearTemp, ..job },
                FsRequestView::RemoveFile { path: job.temp },
            )
        } else {
            link_fill(job)
        },
        LinkPhase::ClearTemp => if done {
            link_fill(job)
        } else {
            StepView::Finish(Err(LinkError::RemoveStaleTemp))
        },
        LinkPhase::Reflink => if done {
            link_swap(job, Some(LinkType::Reflink))
        } else {
            StepView::Ask(
                LinkJobView { phase: LinkPhase::ProbeFailedClone, ..job },
                FsRequestView::Exists { path: job.temp },
            )
        },
        LinkPhase::ProbeFailedClone => if yes {
            StepView::Ask(
                LinkJobView { phase: LinkPhase::DropFailedClone, ..job },
                FsRequestView::RemoveFile { path: job.temp },
            )
        } else {
            link_fall_back(job)
        },
        LinkPhase::DropFailedClone => link_fall_back(job),
        LinkPhase::Swap => if done {
            StepView::Ask(
                LinkJobView { guard: disarmed(job.guard), phase: LinkPhase::Permissions, ..job },
                FsRequestView::SetPermissions { path: job.target, mode: job.stat.mode },
            )
        } else {
            link_leave(job, LinkError::ReplaceTarget)
        },
        LinkPhase::HardLink => if done {
            link_swap(job, Some(LinkType::HardLink))
        } else {
            link_leave(job, LinkError::CreateHardLink)
        },
        LinkPhase::CopyBytes => if done {
            link_swap(job, None)
        } else {
            link_leave(job, LinkError::CopyBytes)
        },
        LinkPhase::Permissions => if done {
            StepView::Ask(
                LinkJobView { phase: LinkPhase::Mtime, ..job },
                FsRequestView::SetMtime {
                    path: job.target,
                    seconds: job.stat.mtime_seconds,
                    nanos: job.stat.mtime_nanos,
                },
            )
        } else {
            StepView::Finish(Err(LinkError::RestorePermissions))
        },
        LinkPhase::Mtime => if done {
            link_next_attr(LinkJobView { cursor: 0, ..job })
        } else {
            StepView::Finish(Err(LinkError::RestoreMtime))
        },
        LinkPhase::WriteValue => if job.cursor < job.xattrs.len() {
            link_next_attr(LinkJobView { cursor: (job.cursor + 1) as usize, ..job })
        } else {
            link_next_attr(job)
        },
        LinkPhase::CleanupProbe(error) => if yes {
            StepView::Ask(
                LinkJobView { phase: LinkPhase::CleanupRemove(error), ..job },
                FsRequestView::RemoveFile { path: job.temp },
            )
        } else {
            StepView::Finish(Err(error))
        },
        LinkPhase::CleanupRemove(error) => StepView::Finish(Err(error)),
    }
}

fn begin(master: Option<String>, target: &str, allow: bool) -> (step: LinkStep)
    ensures
        step@ == link_begin(
            match master {
                Some(m) => Some(m@),
                None => None,
            },
            target@,
            allow,
        ),
{
    let job = LinkJob {
        master,
        target: target.to_owned(),
        temp: temp_path(target),
        allow_unsafe_hardlinks: allow,
        guard: None,
        source: target.to_owned(),
        stat: FileStat { size: 0, inode: 0, mode: 0, mtime_seconds: 0, mtime_nanos: 0 },
        names: Vec::new(),
        xattrs: Vec::new(),
        cursor: 0,
        made: None,
        phase: LinkPhase::Stat,
    };
    assert(names_view(job.names@) =~= Seq::empty());
    assert(xattrs_view(job.xattrs@) =~= Seq::empty());
    Step::Ask(job, FsRequest::Stat { path: target.to_owned() })
}

/// Starts replacing the file `target` by a link to `master`: a
/// copy-on-write clone, or a hard link where no clone can be made and
/// `allow_unsafe_hardlinks` is set. The job finishes with the kind of link
/// that was made.
pub fn replace_with_link(master: &str, target: &str, allow_unsafe_hardlinks: bool) -> (step:
    LinkStep)
    ensures
        step@ == replace_start(master@, target@, allow_unsafe_hardlinks),
{
    if master.to_owned() == target.to_owned() {
        return Step::Finish(Ok(None));
    }
    begin(Some(master.to_owned()), target, allow_unsafe_hardlinks)
}

/// Starts restoring the file `target` to an independent copy of its own
/// bytes, which shares nothing with a master. The job finishes with
/// `Ok(None)`: no link is made.
pub fn restore_file(target: &str) -> (step: LinkStep)
    ensures
        step@ == restore_start(target@),
{
    begin(None, target, false)
}

impl LinkJob {
    fn leave(self, error: LinkError) -> (step: LinkStep)
        ensures
            step@ == link_leave(self@, error),
    {
        let mut job = self;
        let request = match &job.guard {
            Some(guard) => guard.release(),
            None => None,
        };
        match request {
            Some(request) => {
                job.phase = LinkPhase::CleanupProbe(error);
                Step::Ask(job, request)
            },
            None => Step::Finish(Err(error)),
        }
    }

    fn list(self, stat: FileStat) -> (step: LinkStep)
        ensures
            step@ == link_list(self@, stat),
    {
        let mut job = self;
        job.stat = stat;
        job.phase = LinkPhase::ListNames;
        let request = FsRequest::ListXattrs { path: job.source.clone() };
        Step::Ask(job, request)
    }

    fn next_value(self) -> (step: LinkStep)
        ensures
            step@ == link_next_value(self@),
    {
        let mut job = self;
        if job.cursor < job.names.len() {
            job.phase = LinkPhase::ReadValue;
            let request = FsRequest::GetXattr {
                path: job.source.clone(),
                name: clone_bytes(&job.names[job.cursor]),
            };
            Step::Ask(job, request)
        } else {
            job.phase = LinkPhase::ProbeTemp;
            let request = FsRequest::Exists { path: job.temp.clone() };
            Step::Ask(job, request)
        }
    }

    fn fill(self) -> (step: LinkStep)
        ensures
            step@ == link_fill(self@),
    {
        let mut job = self;
        job.guard = Some(TempCleanup::new(job.temp.clone()));
        let request = match &job.master {
            Some(master) => {
                job.phase = LinkPhase::Reflink;
                FsRequest::Reflink { from: master.clone(), to: job.temp.clone() }
            },
            None => {
                job.phase = LinkPhase::CopyBytes;
                FsRequest::CopyBytes { from: job.target.clone(), to: job.temp.clone() }
            },
        };
        Step::Ask(job, request)
    }

    fn fall_back(self) -> (step: LinkStep)
        ensures
            step@ == link_fall_back(self@),
    {
        let mut job = self;
        if job.allow_unsafe_hardlinks {
            let from = match &job.master {
                Some(master) => Some(master.clone()),
                None => None,
            };
            match from {
                Some(from) => {
                    job.phase = LinkPhase::HardLink;
                    let request = FsRequest::HardLink { from, to: job.temp.clone() };
                    return Step::Ask(job, request);
                },
                None => {},
            }
        }
        job.leave(LinkError::ReflinkUnsupported)
    }

    fn swap(self, made: Option<LinkType>) -> (step: LinkStep)
        ensures
            step@ == link_swap(self@, made),
    {
        let mut job = self;
        job.made = made;
        job.phase = LinkPhase::Swap;
        let request = FsRequest::Rename { from: job.temp.clone(), to: job.target.clone() };
        Step::Ask(job, request)
    }

    fn next_attr(self) -> (step: LinkStep)
        ensures
            step@ == link_next_attr(self@),
    {
        let mut job = self;
        if job.cursor < job.xattrs.len() {
            job.phase = LinkPhase::WriteValue;
            let request = FsRequest::SetXattr {
                path: job.target.clone(),
                name: clone_bytes(&job.xattrs[job.cursor].name),
                value: clone_bytes(&job.xattrs[job.cursor].value),
            };
            Step::Ask(job, request)
        } else {
            Step::Finish(Ok(job.made))
        }
    }

    fn disarm(&mut self)
        ensures
            final(self)@ == (LinkJobView { guard: disarmed(old(self)@.guard), ..old(self)@ }),
    {
        match &mut self.guard {
            Some(guard) => {
                guard.disarm();
            },
            None => {},
        }
    }

    /// Resumes the job with the reply to its last request.
    pub fn resume(self, reply: FsReply) -> (step: LinkStep)
        ensures
            step@ == link_resume(self@, reply@),
    {
        let mut job = self;
        let done = reply_is_done(&reply);
        let yes = reply_is_yes(&reply);
        match job.phase {
            LinkPhase::Stat => match reply {
                FsReply::Stat(stat) => job.list(stat),
                _ => {
                    if job.master.is_some() {
                        job.phase = LinkPhase::ProbeTarget;
                        let request = FsRequest::Exists { path: job.target.clone() };
                        Step::Ask(job, request)
                    } else {
                        Step::Finish(Err(LinkError::ReadTargetMetadata))
                    }
                },
            },
            LinkPhase::ProbeTarget => {
                let master = match &job.master {
                    Some(master) => Some(master.clone()),
                    None => None,
                };
                match master {
                    Some(master) => {
                        if yes {
                            Step::Finish(Err(LinkError::ReadTargetMetadata))
                        } else {
                            job.source = master.clone();
                            job.phase = LinkPhase::StatMaster;
                            Step::Ask(job, FsRequest::Stat { path: master })
                        }
                    },
                    None => Step::Finish(Err(LinkError::ReadTargetMetadata)),
                }
            },
            LinkPhase::StatMaster => match reply {
                FsReply::Stat(stat) => job.list(stat),
                _ => Step::Finish(Err(LinkError::ReadTargetMetadata)),
            },
            LinkPhase::ListNames => {
                job.cursor = 0;
                match reply {
                    FsReply::Names(names) => {
                        job.names = names;
                    },
                    _ => {
                        job.names = Vec::new();
                        assert(names_view(job.names@) =~= Seq::empty());
                    },
                }
                job.next_value()
            },
            LinkPhase::ReadValue => {
                if job.cursor < job.names.len() {
                    match reply {
                        FsReply::Value(Some(value)) => {
                            let ghost before = job.xattrs@;
                            let attr = Xattr { name: clone_bytes(&job.names[job.cursor]), value };
                            job.xattrs.push(attr);
                            assert(xattrs_view(job.xattrs@) =~= xattrs_view(before).push(attr@));
                        },
                        _ => {},
                    }
                    job.cursor = job.cursor + 1;
                }
                job.next_value()
            },
            LinkPhase::ProbeTemp => {
                if yes {
                    job.phase = LinkPhase::ClearTemp;
                    let request = FsRequest::RemoveFile { path: job.temp.clone() };
                    Step::Ask(job, request)
                } else {
                    job.fill()
                }
            },
            LinkPhase::ClearTemp => {
                if done {
                    job.fill()
                } else {
                    Step::Finish(Err(LinkError::RemoveStaleTemp))
                }
            },
            LinkPhase::Reflink => {
                if done {
                    job.swap(Some(LinkType::Reflink))
                } else {
                    job.phase = LinkPhase::ProbeFailedClone;
                    let request = FsRequest::Exists { path: job.temp.clone() };
                    Step::Ask(job, request)
                }
            },
            LinkPhase::ProbeFailedClone => {
                if yes {
                    job.phase = LinkPhase::DropFailedClone;
                    let request = FsRequest::RemoveFile { path: job.temp.clone() };
                    Step::Ask(job, request)
                } else {
                    job.fall_back()
                }
            },
            LinkPhase::DropFailedClone => job.fall_back(),
            LinkPhase::HardLink => {
                if done {
                    job.swap(Some(LinkType::HardLink))
                } else {
                    job.leave(LinkError::CreateHardLink)
                }
            },
            LinkPhase::CopyBytes => {
                if done {
                    job.swap(None)
                } else {
                    job.leave(LinkError::CopyBytes)
                }
            },
            LinkPhase::Swap => {
                if !done {
                    job.leave(LinkError::ReplaceTarget)
                } else {
                    job.disarm();
                    job.phase = LinkPhase::Permissions;
                    let request = FsRequest::SetPermissions {
                        path: job.target.clone(),
                        mode: job.stat.mode,
                    };
                    Step::Ask(job, request)
                }
            },
            LinkPhase::Permissions => {
                if done {
                    job.phase = LinkPhase::Mtime;
                    let request = FsRequest::SetMtime {
                        path: job.target.clone(),
                        seconds: job.stat.mtime_seconds,
                        nanos: job.stat.mtime_nanos,
                    };
                    Step::Ask(job, request)
                } else {
                    Step::Finish(Err(LinkError::RestorePermissions))
                }
            },
            LinkPhase::Mtime => {
                if done {
                    job.cursor = 0;
                    job.next_attr()
                } else {
                    Step::Finish(Err(LinkError::RestoreMtime))
                }
            },
            LinkPhase::WriteValue => {
                if job.cursor < job.xattrs.len() {
                    job.cursor = job.cursor + 1;
                }
                job.next_attr()
            },
            LinkPhase::CleanupProbe(error) => {
                if yes {
                    job.phase = LinkPhase::CleanupRemove(error);
                    let request = FsRequest::RemoveFile { path: job.temp.clone() };
                    Step::Ask(job, request)
                } else {
                    Step::Finish(Err(error))
                }
            },
            LinkPhase::CleanupRemove(error) => Step::Finish(Err(error)),
        }
    }
}

/// Replacing a file by a link to itself asks for nothing, so it performs no
/// operation at all, and makes no link.
pub proof fn lemma_same_path_short_circuit(path: Seq<char>, allow_unsafe_hardlinks: bool)
    ensures
        replace_start(path, path, allow_unsafe_hardlinks) == LinkStepView::Finish(Ok(None)),
{
}

/// Length of the reads by which two files are compared.
pub const COMPARE_BUF: usize = 131072;

/// Why two files could not be compared.
#[derive(Debug, Clone, Copy, PartialEq, Eq, Structural)]
pub enum CompareError {
    /// A read failed, or the answer was more than was asked for.
    Read,
}

/// A comparison of two files: how far they have been found equal.
pub struct CompareJob {
    first: String,
    second: String,
    offset: u64,
    held: Option<Vec<u8>>,
}

/// The mathematical twin of [`CompareJob`].
pub struct CompareJobView {
    pub first: Seq<char>,
    pub second: Seq<char>,
    /// Up to here the files are equal.
    pub offset: u64,
    /// The stretch of the first file that waits for its counterpart of the
    /// second; `None` while the first file is being read.
    pub held: Option<Seq<u8>>,
}

impl View for CompareJob {
    type V = CompareJobView;

    closed spec fn view(&self) -> CompareJobView {
        CompareJobView {
            first: self.first@,
            second: self.second@,
            offset: self.offset,
            held: match self.held {
                Some(bytes) => Some(bytes@),
                None => None,
            },
        }
    }
}

pub type CompareStep = Step<CompareJob, FsRequest, Result<bool, CompareError>>;

pub type CompareStepView = StepView<CompareJobView, FsRequestView, Result<bool, CompareError>>;

/// How a comparison begins: by reading the first stretch of the first file.
pub open spec fn compare_start(first: Seq<char>, second: Seq<char>) -> CompareStepView {
    StepView::Ask(
        CompareJobView { first, second, offset: 0, held: None },
        FsRequestView::ReadAt { path: first, offset: 0, len: COMPARE_BUF },
    )
}

/// The bytes of a reply that answers a read of up to `COMPARE_BUF` bytes.
pub open spec fn stretch_of(reply: FsReplyView) -> Option<Seq<u8>> {
    match reply {
        FsReplyView::Bytes(bytes) => if bytes.len() <= COMPARE_BUF {
            Some(bytes)
        } else {
            None
        },
        _ => None,
    }
}

/// One step of a comparison: what it does with the reply to its last
/// request.
///
/// The two files are read in step, a stretch of the first and then the
/// stretch of the second at the same offset. Stretches of different
/// length, or of different content, make the files differ. Two empty
/// stretches end both files at once, and the files are equal.
pub open spec fn compare_resume(job: CompareJobView, reply: FsReplyView) -> CompareStepView {
    match stretch_of(reply) {
        None => StepView::Finish(Err(CompareError::Read)),
        Some(bytes) => match job.held {
            None => StepView::Ask(
                CompareJobView { held: Some(bytes), ..job },
                FsRequestView::ReadAt { path: job.second, offset: job.offset, len: COMPARE_BUF },
            ),
            Some(held) => if held.len() != bytes.len() {
                StepView::Finish(Ok(false))
            } else if held.len() == 0 {
                StepView::Finish(Ok(true))
            } else if held != bytes {
                StepView::Finish(Ok(false))
            } else if job.offset + bytes.len() > u64::MAX {
                StepView::Finish(Err(CompareError::Read))
            } else {
                let offset = (job.offset + bytes.len()) as u64;
                StepView::Ask(
                    CompareJobView { offset, held: None, ..job },
                    FsRequestView::ReadAt { path: job.first, offset, len: COMPARE_BUF },
                )
            },
        },
    }
}

/// Whether two byte strings are equal.
pub fn bytes_equal(a: &[u8], b: &[u8]) -> (equal: bool)
    ensures
        equal == (a@ == b@),
{
    if a.len() != b.len() {
        return false;
    }
    let mut i: usize = 0;
    while i < a.len()
        invariant
            i <= a.len(),
            a.len() == b.len(),
            forall|k: int| 0 <= k < i ==> a@[k] == b@[k],
        decreases a.len() - i,
    {
        if a[i] != b[i] {
            return false;
        }
        i += 1;
    }
    assert(a@ =~= b@);
    true
}

/// Starts the comparison of the files `first` and `second`, byte by byte.
pub fn compare_files(first: &str, second: &str) -> (step: CompareStep)
    ensures
        step@ == compare_start(first@, second@),
{
    let job = CompareJob {
        first: first.to_owned(),
        second: second.to_owned(),
        offset: 0,
        held: None,
    };
    Step::Ask(job, FsRequest::ReadAt { path: first.to_owned(), offset: 0, len: COMPARE_BUF })
}

impl CompareJob {
    /// Resumes the comparison with the reply to its last request.
    pub fn resume(self, reply: FsReply) -> (step: CompareStep)
        ensures
            step@ == compare_resume(self@, reply@),
    {
        let mut job = self;
        let bytes = match reply {
            FsReply::Bytes(bytes) => bytes,
            _ => {
                return Step::Finish(Err(CompareError::Read));
            },
        };
        if bytes.len() > COMPARE_BUF {
            return Step::Finish(Err(CompareError::Read));
        }
        match job.held {
            None => {
                job.held = Some(bytes);
                let request = FsRequest::ReadAt {
                    path: job.second.clone(),
                    offset: job.offset,
                    len: COMPARE_BUF,
                };
                Step::Ask(job, request)
            },
            Some(held) => {
                if held.len() != bytes.len() {
                    Step::Finish(Ok(false))
                } else if held.len() == 0 {
                    Step::Finish(Ok(true))
                } else if !bytes_equal(held.as_slice(), bytes.as_slice()) {
                    Step::Finish(Ok(false))
                } else if bytes.len() as u64 > u64::MAX - job.offset {
                    Step::Finish(Err(CompareError::Read))
                } else {
                    let offset = job.offset + bytes.len() as u64;
                    let next = CompareJob {
                        first: job.first,
                        second: job.second,
                        offset,
                        held: None,
                    };
                    let request = FsRequest::ReadAt {
                        path: next.first.clone(),
                        offset,
                        len: COMPARE_BUF,
                    };
                    Step::Ask(next, request)
                }
            },
        }
    }
}

} // verus!
