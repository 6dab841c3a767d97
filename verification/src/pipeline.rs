//! The pipeline: indexing a file, collecting duplicate groups, and what the
//! runs ask of the file tree, of the state store and of the user.

use vstd::prelude::*;
use vstd::bytes::*;
use vstd::slice::*;
use vstd::string::*;
use std::collections::HashMap;
use crate::dedupe::LinkType;
use crate::hasher::{
    full_hash, full_hash_start, hash_resume, sparse_hash, sparse_hash_start, HashJob, HashJobView,
};
use crate::requests::{FileStat, FsReply, FsReplyView, FsRequest, FsRequestView, Step, StepView};
use crate::scanner::{arrived_paths, arrived_view, paths_view, Arrived, ArrivedView};
use crate::state::{StoreReply, StoreRequest, StoreRequestView};
use crate::types::FileMetadata;

verus! {

broadcast use vstd::std_specs::hash::group_hash_axioms;

/// A line for the user. The caller words and prints it.
#[derive(Debug)]
pub enum Report {
    /// The file was replaced by a link; `verified` where it was compared
    /// byte by byte with the master first.
    Linked { kind: LinkType, verified: bool, path: String },
    /// The file and the master have one digest and different bytes.
    BitRot { path: String },
    /// The file could not be compared with the master.
    VerifyFailed { path: String },
    /// The master could not be moved back out of the vault and remains at
    /// `vault_path`.
    RollbackFailed { vault_path: String },
    /// The file system makes no copy-on-write clones. Told once in a run.
    ReflinkUnsupported,
    /// The file was left as it is, because no clone could be made.
    Skipped { path: String },
    WouldMoveMaster { path: String, vault_path: String },
    /// A dry run compares nothing: there is no master in the vault yet.
    SkippingVerification,
    WouldDedupe { path: String, vault_path: String },
    WouldUpdateState { hash: crate::types::Hash },
    WouldRestore { path: String },
    WouldDecrement { hash: crate::types::Hash },
    Restored { path: String },
    /// The master's count reached zero and the master was removed.
    Pruned,
    RestoreFailed { path: String },
}

/// The mathematical twin of [`Report`].
pub enum ReportView {
    Linked { kind: LinkType, verified: bool, path: Seq<char> },
    BitRot { path: Seq<char> },
    VerifyFailed { path: Seq<char> },
    RollbackFailed { vault_path: Seq<char> },
    ReflinkUnsupported,
    Skipped { path: Seq<char> },
    WouldMoveMaster { path: Seq<char>, vault_path: Seq<char> },
    SkippingVerification,
    WouldDedupe { path: Seq<char>, vault_path: Seq<char> },
    WouldUpdateState { hash: crate::types::Hash },
    WouldRestore { path: Seq<char> },
    WouldDecrement { hash: crate::types::Hash },
    Restored { path: Seq<char> },
    Pruned,
    RestoreFailed { path: Seq<char> },
}

impl View for Report {
    type V = ReportView;

    open spec fn view(&self) -> ReportView {
        match *self {
            Report::Linked { kind, verified, path } => ReportView::Linked {
                kind,
                verified,
                path: path@,
            },
            Report::BitRot { path } => ReportView::BitRot { path: path@ },
            Report::VerifyFailed { path } => ReportView::VerifyFailed { path: path@ },
            Report::RollbackFailed { vault_path } => ReportView::RollbackFailed {
                vault_path: vault_path@,
            },
            Report::ReflinkUnsupported => ReportView::ReflinkUnsupported,
            Report::Skipped { path } => ReportView::Skipped { path: path@ },
            Report::WouldMoveMaster { path, vault_path } => ReportView::WouldMoveMaster {
                path: path@,
                vault_path: vault_path@,
            },
            Report::SkippingVerification => ReportView::SkippingVerification,
            Report::WouldDedupe { path, vault_path } => ReportView::WouldDedupe {
                path: path@,
                vault_path: vault_path@,
            },
            Report::WouldUpdateState { hash } => ReportView::WouldUpdateState { hash },
            Report::WouldRestore { path } => ReportView::WouldRestore { path: path@ },
            Report::WouldDecrement { hash } => ReportView::WouldDecrement { hash },
            Report::Restored { path } => ReportView::Restored { path: path@ },
            Report::Pruned => ReportView::Pruned,
            Report::RestoreFailed { path } => ReportView::RestoreFailed { path: path@ },
        }
    }
}

/// What a run asks of its caller: an operation on the file tree, an
/// operation on the state store, or a line for the user.
#[derive(Debug)]
pub enum Request {
    Fs(FsRequest),
    Store(StoreRequest),
    Tell(Report),
}

/// The mathematical twin of [`Request`].
pub enum RequestView {
    Fs(FsRequestView),
    Store(StoreRequestView),
    Tell(ReportView),
}

impl View for Request {
    type V = RequestView;

    open spec fn view(&self) -> RequestView {
        match *self {
            Request::Fs(request) => RequestView::Fs(request@),
            Request::Store(request) => RequestView::Store(request@),
            Request::Tell(report) => RequestView::Tell(report@),
        }
    }
}

/// The caller's answer to a [`Request`].
#[derive(Debug)]
pub enum Reply {
    Fs(FsReply),
    Store(StoreReply),
    /// The line was printed.
    Told,
}

/// The mathematical twin of [`Reply`].
pub enum ReplyView {
    Fs(FsReplyView),
    Store(StoreReply),
    Told,
}

impl View for Reply {
    type V = ReplyView;

    open spec fn view(&self) -> ReplyView {
        match *self {
            Reply::Fs(reply) => ReplyView::Fs(reply@),
            Reply::Store(reply) => ReplyView::Store(reply),
            Reply::Told => ReplyView::Told,
        }
    }
}

/// The answer of the file tree in a reply; a reply of another kind counts
/// as a failed operation.
pub open spec fn fs_reply_of(reply: ReplyView) -> FsReplyView {
    match reply {
        ReplyView::Fs(reply) => reply,
        _ => FsReplyView::Failed,
    }
}

/// The answer of the state store in a reply; a reply of another kind
/// counts as a failed operation.
pub open spec fn store_reply_of(reply: ReplyView) -> StoreReply {
    match reply {
        ReplyView::Store(reply) => reply,
        _ => StoreReply::Failed,
    }
}

/// The answer of the file tree in a reply.
pub fn into_fs_reply(reply: Reply) -> (fs: FsReply)
    ensures
        fs@ == fs_reply_of(reply@),
{
    match reply {
        Reply::Fs(reply) => reply,
        _ => FsReply::Failed,
    }
}

/// The answer of the state store in a reply.
pub fn into_store_reply(reply: &Reply) -> (store: StoreReply)
    ensures
        store == store_reply_of(reply@),
{
    match reply {
        Reply::Store(reply) => *reply,
        _ => StoreReply::Failed,
    }
}

/// The modification time that the file index records: whole seconds since
/// the epoch, zero for a time before it.
pub open spec fn modified_of(stat: FileStat) -> u64 {
    if stat.mtime_seconds < 0 {
        0
    } else {
        stat.mtime_seconds as u64
    }
}

/// The modification time that the file index records for a file.
pub fn file_modified(stat: &FileStat) -> (seconds: u64)
    ensures
        seconds == modified_of(*stat),
{
    if stat.mtime_seconds < 0 {
        0
    } else {
        stat.mtime_seconds as u64
    }
}

/// Which reply the indexing of a file is waiting for.
#[derive(Debug, Clone, Copy, PartialEq, Eq, Structural)]
pub enum IndexPhase {
    /// The file's metadata.
    Stat,
    /// Whether the file's inode is a hard link to a master.
    CheckVaulted,
    /// A read of the sparse hash.
    Sparse,
    /// A read of the full hash.
    Full,
    /// The file's metadata again, for its modification time.
    Modified,
    /// The record being written to the file index.
    Upsert,
}

/// A file being indexed: hashed and recorded in the file index.
pub struct IndexJob {
    path: String,
    stat: FileStat,
    hash: Option<crate::types::Hash>,
    hashing: Option<HashJob>,
    phase: IndexPhase,
}

/// The mathematical twin of [`IndexJob`].
pub struct IndexJobView {
    pub path: Seq<char>,
    /// The file's metadata when indexing began.
    pub stat: FileStat,
    /// The file's digest, once it is known.
    pub hash: Option<crate::types::Hash>,
    /// The hash that is being computed.
    pub hashing: Option<HashJobView>,
    pub phase: IndexPhase,
}

impl View for IndexJob {
    type V = IndexJobView;

    closed spec fn view(&self) -> IndexJobView {
        IndexJobView {
            path: self.path@,
            stat: self.stat,
            hash: self.hash,
            hashing: match self.hashing {
                Some(job) => Some(job@),
                None => None,
            },
            phase: self.phase,
        }
    }
}

/// Indexing ends with the file's digest, or with `None` where the file
/// was passed over.
pub type IndexStep = Step<IndexJob, Request, Option<crate::types::Hash>>;

pub type IndexStepView = StepView<IndexJobView, RequestView, Option<crate::types::Hash>>;

/// How indexing the file at `path` begins: by asking for its metadata.
pub open spec fn index_start(path: Seq<char>) -> IndexStepView {
    StepView::Ask(
        IndexJobView {
            path,
            stat: crate::dedupe::no_stat(),
            hash: None,
            hashing: None,
            phase: IndexPhase::Stat,
        },
        RequestView::Fs(FsRequestView::Stat { path }),
    )
}

/// One step of indexing: what it does with the reply to its last request.
///
/// A file whose metadata cannot be read is passed over, and so is one
/// whose inode is marked as a hard link to a master. Of the others the
/// sparse hash is computed and then the full hash; a file that cannot be
/// read through is passed over. The file's size, modification time and
/// full digest go to the file index; whether that write succeeds is not
/// looked at. The result is the full digest.
pub open spec fn index_resume(job: IndexJobView, reply: ReplyView) -> IndexStepView {
    match job.phase {
        IndexPhase::Stat => match fs_reply_of(reply) {
            FsReplyView::Stat(stat) => StepView::Ask(
                IndexJobView { stat, phase: IndexPhase::CheckVaulted, ..job },
                RequestView::Store(StoreRequestView::IsInodeVaulted { inode: stat.inode }),
            ),
            _ => StepView::Finish(None),
        },
        IndexPhase::CheckVaulted => if store_reply_of(reply) matches StoreReply::Flag(true) {
            StepView::Finish(None)
        } else {
            index_hashing(job, sparse_hash_start(job.path, job.stat.size), IndexPhase::Sparse)
        },
        IndexPhase::Sparse => match job.hashing {
            Some(hashing) => match hash_resume(hashing, fs_reply_of(reply)) {
                StepView::Finish(Ok(_)) => index_hashing(
                    job,
                    full_hash_start(job.path),
                    IndexPhase::Full,
                ),
                step => index_hashing(job, step, IndexPhase::Sparse),
            },
            None => StepView::Finish(None),
        },
        IndexPhase::Full => match job.hashing {
            Some(hashing) => index_hashing(
                job,
                hash_resume(hashing, fs_reply_of(reply)),
                IndexPhase::Full,
            ),
            None => StepView::Finish(None),
        },
        IndexPhase::Modified => match job.hash {
            Some(hash) => {
                let modified = match fs_reply_of(reply) {
                    FsReplyView::Stat(stat) => modified_of(stat),
                    _ => 0,
                };
                StepView::Ask(
                    IndexJobView { phase: IndexPhase::Upsert, ..job },
                    RequestView::Store(
                        StoreRequestView::UpsertFile {
                            path: job.path,
                            metadata: FileMetadata { size: job.stat.size, modified, hash },
                        },
                    ),
                )
            },
            None => StepView::Finish(None),
        },
        IndexPhase::Upsert => StepView::Finish(job.hash),
    }
}

/// Indexing goes on with a step of the hash being computed: its request
/// is passed on; a failure passes the file over; the digest of a full hash
/// is kept and the file's metadata asked for again.
pub open spec fn index_hashing(
    job: IndexJobView,
    step: crate::hasher::HashStepView,
    phase: IndexPhase,
) -> IndexStepView {
    match step {
        StepView::Ask(hashing, request) => StepView::Ask(
            IndexJobView { hashing: Some(hashing), phase, ..job },
            RequestView::Fs(request),
        ),
        StepView::Finish(Ok(hash)) => StepView::Ask(
            IndexJobView { hash: Some(hash), hashing: None, phase: IndexPhase::Modified, ..job },
            RequestView::Fs(FsRequestView::Stat { path: job.path }),
        ),
        StepView::Finish(Err(_)) => StepView::Finish(None),
    }
}

/// The step asks nothing of the file tree but to look.
pub open spec fn index_step_reads(step: IndexStepView) -> bool {
    match step {
        StepView::Ask(_, RequestView::Fs(request)) => crate::requests::fs_reads_only(request),
        _ => true,
    }
}

/// Indexing changes no file: whatever the replies, every operation that it
/// asks of the file tree only looks.
pub proof fn lemma_indexing_changes_no_file(job: IndexJobView, reply: ReplyView)
    ensures
        index_step_reads(index_start(job.path)),
        index_step_reads(index_resume(job, reply)),
{
    crate::hasher::lemma_hashing_reads_only(
        HashJobView {
            path: job.path,
            size: job.stat.size,
            phase: crate::hasher::HashPhase::Whole,
            offset: 0,
            absorbed: Seq::empty(),
        },
        fs_reply_of(reply),
    );
    match job.hashing {
        Some(hashing) => {
            crate::hasher::lemma_hashing_reads_only(hashing, fs_reply_of(reply));
        },
        None => {},
    }
}

/// Starts indexing the file at `path`.
pub fn index_file(path: &str) -> (step: IndexStep)
    ensures
        step@ == index_start(path@),
{
    let job = IndexJob {
        path: path.to_owned(),
        stat: FileStat { size: 0, inode: 0, mode: 0, mtime_seconds: 0, mtime_nanos: 0 },
        hash: None,
        hashing: None,
        phase: IndexPhase::Stat,
    };
    Step::Ask(job, Request::Fs(FsRequest::Stat { path: path.to_owned() }))
}

impl IndexJob {
    fn hashing(self, step: crate::hasher::HashStep, phase: IndexPhase) -> (next: IndexStep)
        ensures
            next@ == index_hashing(self@, step@, phase),
    {
        let mut job = self;
        match step {
            Step::Ask(hashing, request) => {
                job.hashing = Some(hashing);
                job.phase = phase;
                Step::Ask(job, Request::Fs(request))
            },
            Step::Finish(Ok(hash)) => {
                job.hash = Some(hash);
                job.hashing = None;
                job.phase = IndexPhase::Modified;
                let request = FsRequest::Stat { path: job.path.clone() };
                Step::Ask(job, Request::Fs(request))
            },
            Step::Finish(Err(_)) => Step::Finish(None),
        }
    }

    /// Resumes indexing with the reply to its last request.
    pub fn resume(self, reply: Reply) -> (step: IndexStep)
        ensures
            step@ == index_resume(self@, reply@),
    {
        let mut job = self;
        match job.phase {
            IndexPhase::Stat => match into_fs_reply(reply) {
                FsReply::Stat(stat) => {
                    job.stat = stat;
                    job.phase = IndexPhase::CheckVaulted;
                    Step::Ask(job, Request::Store(StoreRequest::IsInodeVaulted { inode: stat.inode }))
                },
                _ => Step::Finish(None),
            },
            IndexPhase::CheckVaulted => match into_store_reply(&reply) {
                StoreReply::Flag(true) => Step::Finish(None),
                _ => {
                    let start = sparse_hash(job.path.as_str(), job.stat.size);
                    job.hashing(start, IndexPhase::Sparse)
                },
            },
            IndexPhase::Sparse => match job.hashing.take() {
                Some(hashing) => {
                    match hashing.resume(into_fs_reply(reply)) {
                        Step::Finish(Ok(_)) => {
                            let start = full_hash(job.path.as_str());
                            job.hashing(start, IndexPhase::Full)
                        },
                        step => job.hashing(step, IndexPhase::Sparse),
                    }
                },
                None => Step::Finish(None),
            },
            IndexPhase::Full => match job.hashing.take() {
                Some(hashing) => {
                    let step = hashing.resume(into_fs_reply(reply));
                    job.hashing(step, IndexPhase::Full)
                },
                None => Step::Finish(None),
            },
            IndexPhase::Modified => match job.hash {
                Some(hash) => {
                    let modified = match into_fs_reply(reply) {
                        FsReply::Stat(stat) => file_modified(&stat),
                        _ => 0,
                    };
                    job.phase = IndexPhase::Upsert;
                    let request = StoreRequest::UpsertFile {
                        path: job.path.clone(),
                        metadata: FileMetadata { size: job.stat.size, modified, hash },
                    };
                    Step::Ask(job, Request::Store(request))
                },
                None => Step::Finish(None),
            },
            IndexPhase::Upsert => Step::Finish(job.hash),
        }
    }
}

/// The files of one digest, in the order in which their digests arrived.
#[derive(Debug)]
pub struct DuplicateGroup {
    pub hash: crate::types::Hash,
    pub paths: Vec<String>,
}

/// The mathematical twin of [`DuplicateGroup`].
pub struct GroupView {
    pub hash: crate::types::Hash,
    pub paths: Seq<Seq<char>>,
}

impl View for DuplicateGroup {
    type V = GroupView;

    open spec fn view(&self) -> GroupView {
        GroupView { hash: self.hash, paths: paths_view(self.paths@) }
    }
}

/// The twins of a list of groups, in order.
pub open spec fn groups_view(groups: Seq<DuplicateGroup>) -> Seq<GroupView> {
    groups.map_values(|g: DuplicateGroup| g@)
}

/// Whether two digests are equal.
pub fn hash_eq(a: &crate::types::Hash, b: &crate::types::Hash) -> (equal: bool)
    ensures
        equal == (*a == *b),
{
    let mut i: usize = 0;
    while i < 32
        invariant
            i <= 32,
            forall|k: int| 0 <= k < i ==> a@[k] == b@[k],
        decreases 32 - i,
    {
        if a[i] != b[i] {
            return false;
        }
        i += 1;
    }
    assert(a@ =~= b@);
    assert(*a =~= *b);
    true
}

/// The first eight bytes of a digest, as a number: the key under which
/// the groups are looked up.
pub open spec fn digest_prefix(hash: crate::types::Hash) -> u64 {
    spec_u64_from_le_bytes(hash@.subrange(0, 8))
}

fn prefix_of(hash: &crate::types::Hash) -> (prefix: u64)
    ensures
        prefix == digest_prefix(*hash),
{
    u64_from_le_bytes(slice_subrange(vstd::array::array_as_slice(hash), 0, 8))
}

/// The files of one digest, each with the number of its arrival at the
/// coordinator.
pub struct ArrivedGroupView {
    pub hash: crate::types::Hash,
    pub files: Seq<ArrivedView>,
}

/// The files of one digest while the groups are collected.
struct ArrivedGroup {
    hash: crate::types::Hash,
    files: Vec<Arrived>,
}

spec fn arrived_groups_view(groups: Seq<ArrivedGroup>) -> Seq<ArrivedGroupView> {
    groups.map_values(
        |g: ArrivedGroup| ArrivedGroupView { hash: g.hash, files: arrived_view(g.files@) },
    )
}

/// The groups without the numbers of arrival.
pub open spec fn plain_groups(groups: Seq<ArrivedGroupView>) -> Seq<GroupView> {
    groups.map_values(
        |g: ArrivedGroupView| GroupView { hash: g.hash, paths: arrived_paths(g.files) },
    )
}

/// The files stand in the order of their arrival at the coordinator.
pub open spec fn in_arrival_order(files: Seq<ArrivedView>) -> bool {
    forall|i: int, j: int| 0 <= i < j < files.len() ==> files[i].arrival <= files[j].arrival
}

/// In every group the files stand in the order of their arrival.
pub open spec fn groups_in_arrival_order(groups: Seq<ArrivedGroupView>) -> bool {
    forall|g: int| 0 <= g < groups.len() ==> in_arrival_order((#[trigger] groups[g]).files)
}

/// Where a file of the arrival number `arrival` belongs among `files`: at
/// the first index at `from` or later of a file that arrived after it, or
/// at the end.
pub open spec fn slot_for(files: Seq<ArrivedView>, arrival: u64, from: int) -> int
    decreases files.len() - from,
{
    if from < 0 || from >= files.len() {
        files.len() as int
    } else if files[from].arrival > arrival {
        from
    } else {
        slot_for(files, arrival, from + 1)
    }
}

/// The hashed files, grouped by digest. Files are duplicates of each other
/// exactly where their full digests are equal. Within a group the files
/// stand in the order in which they arrived at the coordinator, whatever
/// the order in which their digests became known.
pub struct HashGroups {
    slots: HashMap<u64, Vec<usize>>,
    groups: Vec<ArrivedGroup>,
}

/// No two groups have the same digest, and no group is empty.
spec fn groups_are_sound(groups: Seq<ArrivedGroup>) -> bool {
    &&& forall|i: int, j: int| 0 <= i < j < groups.len() ==> groups[i].hash != groups[j].hash
    &&& forall|i: int| 0 <= i < groups.len() ==> (#[trigger] groups[i]).files.len() > 0
}

/// Every group is listed under the prefix of its digest, and every index
/// listed is that of a group.
spec fn slots_are_sound(slots: Map<u64, Vec<usize>>, groups: Seq<ArrivedGroup>) -> bool {
    &&& forall|i: int|
        0 <= i < groups.len() ==> slots.contains_key(digest_prefix(#[trigger] groups[i].hash))
            && slots[digest_prefix(groups[i].hash)]@.contains(i as usize)
    &&& forall|key: u64, j: int|
        slots.contains_key(key) && 0 <= j < slots[key].len() ==> (#[trigger] slots[key][j])
            < groups.len()
}

/// The paths of a list of arrived files, in order.
fn paths_of_files(files: &Vec<Arrived>) -> (paths: Vec<String>)
    ensures
        paths_view(paths@) == arrived_paths(arrived_view(files@)),
{
    let mut paths: Vec<String> = Vec::new();
    let mut i: usize = 0;
    assert(paths_view(paths@) =~= arrived_paths(arrived_view(files@)).subrange(0, 0));
    while i < files.len()
        invariant
            i <= files.len(),
            paths_view(paths@) == arrived_paths(arrived_view(files@)).subrange(0, i as int),
        decreases files.len() - i,
    {
        let ghost before = paths@;
        paths.push(files[i].path.clone());
        assert(paths_view(paths@) =~= paths_view(before).push(files@[i as int].path@));
        assert(paths_view(paths@) =~= arrived_paths(arrived_view(files@)).subrange(0, i + 1));
        i += 1;
    }
    assert(paths_view(paths@) =~= arrived_paths(arrived_view(files@)));
    paths
}

impl HashGroups {
    #[verifier::type_invariant]
    spec fn one_ordered_group_for_each_digest(self) -> bool {
        &&& groups_are_sound(self.groups@)
        &&& slots_are_sound(self.slots@, self.groups@)
        &&& groups_in_arrival_order(arrived_groups_view(self.groups@))
    }

    /// The groups, in the order in which their digests first became known.
    pub closed spec fn view(&self) -> Seq<ArrivedGroupView> {
        arrived_groups_view(self.groups@)
    }

    /// The files of the digest `hash`, in the order of their arrival.
    pub open spec fn files_of(&self, hash: crate::types::Hash) -> Seq<ArrivedView> {
        group_files(self@, hash)
    }

    /// Groups of nothing.
    pub fn new() -> (groups: Self)
        ensures
            groups@ == Seq::<ArrivedGroupView>::empty(),
    {
        let groups = HashGroups { slots: HashMap::new(), groups: Vec::new() };
        assert(groups@ =~= Seq::<ArrivedGroupView>::empty());
        groups
    }

    /// Records that `file` has the digest `hash`: the file joins the group
    /// of its digest, after the files that arrived before it and before
    /// those that arrived after it, or founds the group.
    pub fn record(self, hash: crate::types::Hash, file: Arrived) -> (next: HashGroups)
        ensures
            next@ == recorded(self@, hash, file@),
            groups_in_arrival_order(next@),
    {
        proof {
            use_type_invariant(&self);
        }
        let HashGroups { mut slots, mut groups } = self;
        let ghost before = groups@;
        let ghost listed = slots@;
        let key = prefix_of(&hash);
        let mut list: Vec<usize> = match slots.remove(&key) {
            Some(list) => list,
            None => Vec::new(),
        };
        let ghost candidates = list@;
        let mut found: Option<usize> = None;
        let mut c: usize = 0;
        while c < list.len() && found.is_none()
            invariant
                c <= list.len(),
                list@ == candidates,
                groups@ == before,
                forall|j: int| 0 <= j < list.len() ==> (#[trigger] list[j]) < groups.len(),
                forall|j: int|
                    0 <= j < c && found.is_none() ==> before[(#[trigger] list[j]) as int].hash
                        != hash,
                match found {
                    Some(i) => i < groups.len() && before[i as int].hash == hash,
                    None => true,
                },
            decreases list.len() - c + (if found.is_none() { 1int } else { 0int }),
        {
            let i = list[c];
            if hash_eq(&groups[i].hash, &hash) {
                found = Some(i);
            } else {
                c += 1;
            }
        }
        match found {
            Some(i) => {
                let ghost old_files = arrived_view(before[i as int].files@);
                let mut k: usize = 0;
                while k < groups[i].files.len() && groups[i].files[k].arrival <= file.arrival
                    invariant
                        i < groups.len(),
                        groups@ == before,
                        k <= groups[i as int].files.len(),
                        slot_for(old_files, file.arrival, 0) == slot_for(
                            old_files,
                            file.arrival,
                            k as int,
                        ),
                        forall|j: int| 0 <= j < k ==> old_files[j].arrival <= file.arrival,
                        old_files == arrived_view(before[i as int].files@),
                    decreases groups[i as int].files.len() - k,
                {
                    assert(old_files[k as int] == before[i as int].files@[k as int]@);
                    k += 1;
                }
                proof {
                    if k < old_files.len() {
                        assert(old_files[k as int] == before[i as int].files@[k as int]@);
                    }
                    assert(slot_for(old_files, file.arrival, 0) == k);
                }
                groups[i].files.insert(k, file);
                slots.insert(key, list);
                proof {
                    assert(slots@ =~= listed);
                    assert(position(plain_groups(arrived_groups_view(before)), hash, 0) == Some(
                        i as int,
                    )) by {
                        lemma_position(plain_groups(arrived_groups_view(before)), hash, 0, i as int);
                    }
                    let new_files = arrived_view(groups[i as int].files@);
                    assert(new_files =~= old_files.insert(k as int, file@));
                    assert(arrived_groups_view(groups@) =~= recorded(
                        arrived_groups_view(before),
                        hash,
                        file@,
                    ));
                    assert(in_arrival_order(new_files)) by {
                        assert(in_arrival_order(arrived_groups_view(before)[i as int].files));
                        assert forall|a: int, b: int| 0 <= a < b < new_files.len() implies new_files[a].arrival
                            <= new_files[b].arrival by {
                            if a == k && b > k {
                                assert(new_files[b] == old_files[b - 1]);
                                assert(old_files[k as int].arrival <= old_files[b - 1].arrival);
                            } else if b == k {
                                assert(new_files[a] == old_files[a]);
                            } else if a < k && b > k {
                                assert(new_files[a] == old_files[a]);
                                assert(new_files[b] == old_files[b - 1]);
                            } else if b < k {
                                assert(new_files[a] == old_files[a]);
                                assert(new_files[b] == old_files[b]);
                            } else {
                                assert(new_files[a] == old_files[a - 1]);
                                assert(new_files[b] == old_files[b - 1]);
                            }
                        }
                    }
                    assert(groups_in_arrival_order(arrived_groups_view(groups@))) by {
                        assert forall|g: int| 0 <= g < groups.len() implies in_arrival_order(
                            (#[trigger] arrived_groups_view(groups@)[g]).files,
                        ) by {
                            if g != i {
                                assert(groups@[g] == before[g]);
                                assert(in_arrival_order(arrived_groups_view(before)[g].files));
                            }
                        }
                    }
                    assert(slots_are_sound(slots@, groups@)) by {
                        assert forall|g: int| 0 <= g < groups.len() implies slots@.contains_key(
                            digest_prefix(#[trigger] groups[g].hash),
                        ) && slots@[digest_prefix(groups[g].hash)]@.contains(g as usize) by {
                            assert(groups[g].hash == before[g].hash);
                        }
                    }
                }
                HashGroups { slots, groups }
            },
            None => {
                let n = groups.len();
                let mut files: Vec<Arrived> = Vec::new();
                files.push(file);
                groups.push(ArrivedGroup { hash, files });
                list.push(n);
                slots.insert(key, list);
                proof {
                    assert(arrived_view(files@) =~= seq![file@]);
                    assert forall|g: int| 0 <= g < before.len() implies (#[trigger] before[g]).hash
                        != hash by {
                        if before[g].hash == hash {
                            assert(listed.contains_key(key));
                            assert(listed[key]@.contains(g as usize));
                            let j = choose|j: int|
                                0 <= j < candidates.len() && candidates[j] == g as usize;
                            assert(before[list[j] as int].hash != hash);
                        }
                    }
                    assert(position(plain_groups(arrived_groups_view(before)), hash, 0).is_none())
                        by {
                        lemma_no_position(plain_groups(arrived_groups_view(before)), hash, 0);
                    }
                    assert(arrived_groups_view(groups@) =~= recorded(
                        arrived_groups_view(before),
                        hash,
                        file@,
                    ));
                    assert(groups_in_arrival_order(arrived_groups_view(groups@))) by {
                        assert forall|g: int| 0 <= g < groups.len() implies in_arrival_order(
                            (#[trigger] arrived_groups_view(groups@)[g]).files,
                        ) by {
                            if g < n {
                                assert(groups@[g] == before[g]);
                                assert(in_arrival_order(arrived_groups_view(before)[g].files));
                            }
                        }
                    }
                    assert(slots_are_sound(slots@, groups@)) by {
                        assert forall|g: int| 0 <= g < groups.len() implies slots@.contains_key(
                            digest_prefix(#[trigger] groups[g].hash),
                        ) && slots@[digest_prefix(groups[g].hash)]@.contains(g as usize) by {
                            if g < n {
                                assert(groups[g] == before[g]);
                                let prefix = digest_prefix(before[g].hash);
                                assert(listed.contains_key(prefix));
                                assert(listed[prefix]@.contains(g as usize));
                                if prefix == key {
                                    let j = choose|j: int|
                                        0 <= j < candidates.len() && candidates[j] == g as usize;
                                    assert(list@[j] == g as usize);
                                }
                            } else {
                                assert(list@[list.len() - 1] == n);
                            }
                        }
                        assert forall|other: u64, j: int|
                            slots@.contains_key(other) && 0 <= j < slots@[other].len() implies (
                        #[trigger] slots@[other][j]) < groups.len() by {
                            if other != key {
                                assert(listed.contains_key(other));
                                assert(listed[other][j] < before.len());
                            } else if j < candidates.len() {
                                assert(list@[j] == candidates[j]);
                            }
                        }
                    }
                }
                HashGroups { slots, groups }
            },
        }
    }

    /// The groups, in the order in which their digests first became known,
    /// each with its files in the order of their arrival. No two groups
    /// have the same digest, and none is empty.
    pub fn into_groups(self) -> (groups: Vec<DuplicateGroup>)
        ensures
            groups_view(groups@) == plain_groups(self@),
            groups_in_arrival_order(self@),
            forall|i: int, j: int| 0 <= i < j < groups.len() ==> groups[i].hash != groups[j].hash,
            forall|i: int| 0 <= i < groups.len() ==> (#[trigger] groups[i]).paths.len() > 0,
    {
        proof {
            use_type_invariant(&self);
        }
        let mut groups: Vec<DuplicateGroup> = Vec::new();
        let mut i: usize = 0;
        assert(groups_view(groups@) =~= plain_groups(self@).subrange(0, 0));
        while i < self.groups.len()
            invariant
                i <= self.groups.len(),
                groups.len() == i,
                groups_are_sound(self.groups@),
                groups_view(groups@) == plain_groups(self@).subrange(0, i as int),
                forall|g: int| 0 <= g < i ==> (#[trigger] groups[g]).hash == self.groups[g].hash,
                forall|g: int| 0 <= g < i ==> (#[trigger] groups[g]).paths.len() > 0,
            decreases self.groups.len() - i,
        {
            let ghost before = groups@;
            let paths = paths_of_files(&self.groups[i].files);
            let group = DuplicateGroup { hash: self.groups[i].hash, paths };
            groups.push(group);
            proof {
                assert(self.groups[i as int].files.len() > 0);
                assert(paths_view(paths@).len() == self.groups[i as int].files.len());
                assert(groups_view(groups@) =~= groups_view(before).push(group@));
                assert(groups_view(groups@) =~= plain_groups(self@).subrange(0, i + 1));
            }
            i += 1;
        }
        assert(groups_view(groups@) =~= plain_groups(self@));
        groups
    }
}

/// The index of the first group at `from` or later whose digest is `hash`.
pub open spec fn position(groups: Seq<GroupView>, hash: crate::types::Hash, from: int) -> Option<int>
    decreases groups.len() - from,
{
    if from < 0 || from >= groups.len() {
        None
    } else if groups[from].hash == hash {
        Some(from)
    } else {
        position(groups, hash, from + 1)
    }
}

/// The paths of the files of the digest `hash` among the groups.
pub open spec fn group_paths(groups: Seq<GroupView>, hash: crate::types::Hash) -> Seq<Seq<char>> {
    match position(groups, hash, 0) {
        Some(i) => groups[i].paths,
        None => Seq::empty(),
    }
}

/// The files of the digest `hash` among the groups.
pub open spec fn group_files(groups: Seq<ArrivedGroupView>, hash: crate::types::Hash) -> Seq<
    ArrivedView,
> {
    match position(plain_groups(groups), hash, 0) {
        Some(i) => groups[i].files,
        None => Seq::empty(),
    }
}

/// The groups after `file` has been recorded under the digest `hash`: the
/// file stands in the group of its digest where its arrival number puts
/// it, or founds the group.
pub open spec fn recorded(
    groups: Seq<ArrivedGroupView>,
    hash: crate::types::Hash,
    file: ArrivedView,
) -> Seq<ArrivedGroupView> {
    match position(plain_groups(groups), hash, 0) {
        Some(i) => groups.update(
            i,
            ArrivedGroupView {
                hash,
                files: groups[i].files.insert(slot_for(groups[i].files, file.arrival, 0), file),
            },
        ),
        None => groups.push(ArrivedGroupView { hash, files: seq![file] }),
    }
}

proof fn lemma_position(groups: Seq<GroupView>, hash: crate::types::Hash, from: int, at: int)
    requires
        0 <= from <= at < groups.len(),
        groups[at].hash == hash,
        forall|k: int| from <= k < at ==> groups[k].hash != hash,
    ensures
        position(groups, hash, from) == Some(at),
    decreases at - from,
{
    if from < at {
        lemma_position(groups, hash, from + 1, at);
    }
}

proof fn lemma_no_position(groups: Seq<GroupView>, hash: crate::types::Hash, from: int)
    requires
        0 <= from,
        forall|k: int| from <= k < groups.len() ==> groups[k].hash != hash,
    ensures
        position(groups, hash, from).is_none(),
    decreases groups.len() - from,
{
    if from < groups.len() {
        lemma_no_position(groups, hash, from + 1);
    }
}

proof fn lemma_position_found(groups: Seq<GroupView>, hash: crate::types::Hash, from: int)
    requires
        0 <= from,
    ensures
        match position(groups, hash, from) {
            Some(i) => from <= i < groups.len() && groups[i].hash == hash && forall|k: int|
                from <= k < i ==> groups[k].hash != hash,
            None => forall|k: int| from <= k < groups.len() ==> groups[k].hash != hash,
        },
    decreases groups.len() - from,
{
    if from < groups.len() && groups[from].hash != hash {
        lemma_position_found(groups, hash, from + 1);
    }
}

/// Recording a file puts it among the files of its digest and leaves the
/// files of every other digest as they were.
pub proof fn lemma_recorded(groups: Seq<ArrivedGroupView>, hash: crate::types::Hash, file: ArrivedView)
    ensures
        group_files(recorded(groups, hash, file), hash) == group_files(groups, hash).insert(
            slot_for(group_files(groups, hash), file.arrival, 0),
            file,
        ),
        forall|other: crate::types::Hash|
            other != hash ==> group_files(recorded(groups, hash, file), other) == group_files(
                groups,
                other,
            ),
{
    let next = recorded(groups, hash, file);
    let plain = plain_groups(groups);
    lemma_position_found(plain, hash, 0);
    assert forall|k: int| 0 <= k < groups.len() implies (#[trigger] plain_groups(next)[k]).hash
        == plain[k].hash by {
        assert(next[k].hash == groups[k].hash);
    }
    assert forall|k: int|
        0 <= k < groups.len() && plain[k].hash != hash implies (#[trigger] next[k]) == groups[k] by {
    }
    match position(plain, hash, 0) {
        Some(i) => {
            lemma_position(plain_groups(next), hash, 0, i);
        },
        None => {
            lemma_position(plain_groups(next), hash, 0, groups.len() as int);
            assert(Seq::<ArrivedView>::empty().insert(0, file) =~= seq![file]);
        },
    }
    assert forall|other: crate::types::Hash| other != hash implies group_files(next, other)
        == group_files(groups, other) by {
        lemma_position_found(plain, other, 0);
        match position(plain, other, 0) {
            Some(j) => {
                lemma_position(plain_groups(next), other, 0, j);
            },
            None => {
                lemma_no_position(plain_groups(next), other, 0);
            },
        }
    }
}

/// Within a group the files keep the order in which the coordinator saw
/// them: of two files of a group, the one with the smaller arrival number
/// stands first, whatever the order in which they were recorded. So the
/// first file of a group, its master, is the first that the coordinator
/// saw.
pub proof fn lemma_earlier_arrival_stands_first(files: Seq<ArrivedView>, i: int, j: int)
    requires
        in_arrival_order(files),
        0 <= i < files.len(),
        0 <= j < files.len(),
        files[i].arrival < files[j].arrival,
    ensures
        i < j,
{
}

/// The number of groups of two or more files.
pub open spec fn duplicate_groups(groups: Seq<GroupView>) -> nat
    decreases groups.len(),
{
    if groups.len() == 0 {
        0
    } else if groups.last().paths.len() > 1 {
        duplicate_groups(groups.drop_last()) + 1
    } else {
        duplicate_groups(groups.drop_last())
    }
}

/// The number of groups of two or more files: the number of sets of
/// duplicates.
pub fn duplicate_count(groups: &Vec<DuplicateGroup>) -> (count: usize)
    ensures
        count == duplicate_groups(groups_view(groups@)),
{
    let mut count: usize = 0;
    let mut i: usize = 0;
    assert(groups_view(groups@).subrange(0, 0) =~= Seq::empty());
    while i < groups.len()
        invariant
            i <= groups.len(),
            count <= i,
            count == duplicate_groups(groups_view(groups@).subrange(0, i as int)),
        decreases groups.len() - i,
    {
        let ghost seen = groups_view(groups@).subrange(0, i + 1);
        assert(seen.drop_last() =~= groups_view(groups@).subrange(0, i as int));
        assert(seen.last() == groups@[i as int]@);
        if groups[i].paths.len() > 1 {
            count += 1;
        }
        i += 1;
    }
    assert(groups_view(groups@).subrange(0, i as int) =~= groups_view(groups@));
    count
}

/// The counts that a scan writes: for each group of two or more files, the
/// number of its files under its digest, in the order of the groups.
pub open spec fn refcount_writes(groups: Seq<GroupView>) -> Seq<StoreRequestView>
    decreases groups.len(),
{
    if groups.len() == 0 {
        Seq::empty()
    } else if groups.last().paths.len() > 1 {
        refcount_writes(groups.drop_last()).push(
            StoreRequestView::SetCasRefcount {
                hash: groups.last().hash,
                count: groups.last().paths.len() as u64,
            },
        )
    } else {
        refcount_writes(groups.drop_last())
    }
}

/// The twins of a list of store requests, in order.
pub open spec fn store_requests_view(requests: Seq<StoreRequest>) -> Seq<StoreRequestView> {
    requests.map_values(|r: StoreRequest| r@)
}

/// The counts that a scan writes to the state store once its groups are
/// complete.
pub fn refcount_requests(groups: &Vec<DuplicateGroup>) -> (requests: Vec<StoreRequest>)
    ensures
        store_requests_view(requests@) == refcount_writes(groups_view(groups@)),
{
    let mut requests: Vec<StoreRequest> = Vec::new();
    let mut i: usize = 0;
    assert(groups_view(groups@).subrange(0, 0) =~= Seq::empty());
    assert(store_requests_view(requests@) =~= Seq::empty());
    while i < groups.len()
        invariant
            i <= groups.len(),
            store_requests_view(requests@) == refcount_writes(
                groups_view(groups@).subrange(0, i as int),
            ),
        decreases groups.len() - i,
    {
        let ghost seen = groups_view(groups@).subrange(0, i + 1);
        let ghost before = requests@;
        assert(seen.drop_last() =~= groups_view(groups@).subrange(0, i as int));
        assert(seen.last() == groups@[i as int]@);
        if groups[i].paths.len() > 1 {
            let request = StoreRequest::SetCasRefcount {
                hash: groups[i].hash,
                count: groups[i].paths.len() as u64,
            };
            requests.push(request);
            assert(store_requests_view(requests@) =~= store_requests_view(before).push(request@));
        }
        i += 1;
    }
    assert(groups_view(groups@).subrange(0, i as int) =~= groups_view(groups@));
    requests
}

} // verus!
