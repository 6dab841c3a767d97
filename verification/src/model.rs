//! A model of the file tree, against which the protocols are run in proofs.
//!
//! The model knows files, their inodes and what the link engine reads and
//! writes of them: bytes, permission bits, modification time and extended
//! attributes. It knows no directories, and an operation fails only where
//! the model says so: where a file is missing, where a name is taken, or
//! where the file system makes no clones.

use vstd::prelude::*;
use crate::pipeline::{ReplyView, ReportView, RequestView};
use crate::requests::{FileStat, FsReplyView, FsRequestView, StepView, XattrView};
use crate::state::{StoreReply, StoreRequestView};
use crate::types::FileMetadata;

verus! {

/// A file's inode: what all names of the file share.
pub struct Inode {
    pub content: Seq<u8>,
    pub mode: u32,
    pub mtime_seconds: i64,
    pub mtime_nanos: u32,
    pub xattrs: Seq<XattrView>,
}

/// A file tree.
pub struct Tree {
    /// The files: each path with the number of its inode.
    pub names: Map<Seq<char>, u64>,
    pub inodes: Map<u64, Inode>,
    /// The number that the next new inode gets.
    pub next: u64,
    /// The file system makes copy-on-write clones.
    pub cow: bool,
    /// The permission bits of a newly created file.
    pub new_mode: u32,
    /// The modification time of a newly created file.
    pub now_seconds: i64,
    pub now_nanos: u32,
}

/// The index of the first attribute at `from` or later that has the name
/// `name`.
pub open spec fn attr_index(xattrs: Seq<XattrView>, name: Seq<u8>, from: int) -> Option<int>
    decreases xattrs.len() - from,
{
    if from < 0 || from >= xattrs.len() {
        None
    } else if xattrs[from].name == name {
        Some(from)
    } else {
        attr_index(xattrs, name, from + 1)
    }
}

/// The attributes after `name` has been set to `value`: its old value is
/// replaced, or the attribute is added as the last.
pub open spec fn attr_put(xattrs: Seq<XattrView>, name: Seq<u8>, value: Seq<u8>) -> Seq<XattrView> {
    match attr_index(xattrs, name, 0) {
        Some(i) => xattrs.update(i, XattrView { name, value }),
        None => xattrs.push(XattrView { name, value }),
    }
}

/// The attributes after those of `puts` from index `from` on have been
/// set, one after the other.
pub open spec fn attr_put_all(xattrs: Seq<XattrView>, puts: Seq<XattrView>, from: int) -> Seq<XattrView>
    decreases puts.len() - from,
{
    if from < 0 || from >= puts.len() {
        xattrs
    } else {
        attr_put_all(attr_put(xattrs, puts[from].name, puts[from].value), puts, from + 1)
    }
}

/// No two of the attributes have the same name.
pub open spec fn attr_names_differ(xattrs: Seq<XattrView>) -> bool {
    forall|i: int, j: int| 0 <= i < j < xattrs.len() ==> xattrs[i].name != xattrs[j].name
}

/// The names of the attributes, in order.
pub open spec fn attr_names(xattrs: Seq<XattrView>) -> Seq<Seq<u8>> {
    xattrs.map_values(|x: XattrView| x.name)
}

impl Tree {
    /// Every name has an inode, new inode numbers are unused, and no file
    /// has two attributes of one name.
    pub open spec fn well_formed(self) -> bool {
        &&& forall|path: Seq<char>| #[trigger]
            self.names.contains_key(path) ==> self.inodes.contains_key(self.names[path])
        &&& forall|number: u64| #[trigger] self.inodes.contains_key(number) ==> number < self.next
        &&& forall|number: u64| #[trigger]
            self.inodes.contains_key(number) ==> attr_names_differ(self.inodes[number].xattrs)
    }

    /// There is a file at `path`.
    pub open spec fn has(self, path: Seq<char>) -> bool {
        self.names.contains_key(path)
    }

    /// The inode of the file at `path`.
    pub open spec fn inode(self, path: Seq<char>) -> Inode {
        self.inodes[self.names[path]]
    }

    /// What a `Stat` of the file at `path` reports.
    pub open spec fn stat(self, path: Seq<char>) -> FileStat {
        let inode = self.inode(path);
        FileStat {
            size: inode.content.len() as u64,
            inode: self.names[path],
            mode: inode.mode,
            mtime_seconds: inode.mtime_seconds,
            mtime_nanos: inode.mtime_nanos,
        }
    }

    /// The tree with a new file at `path`: a new inode with the bytes
    /// `content`, the permission bits `mode`, the current time and no
    /// attributes.
    pub open spec fn created(self, path: Seq<char>, content: Seq<u8>, mode: u32) -> Tree {
        Tree {
            names: self.names.insert(path, self.next),
            inodes: self.inodes.insert(
                self.next,
                Inode {
                    content,
                    mode,
                    mtime_seconds: self.now_seconds,
                    mtime_nanos: self.now_nanos,
                    xattrs: Seq::empty(),
                },
            ),
            next: (self.next + 1) as u64,
            ..self
        }
    }

    /// The tree with the inode of the file at `path` replaced.
    pub open spec fn with_inode(self, path: Seq<char>, inode: Inode) -> Tree {
        Tree { inodes: self.inodes.insert(self.names[path], inode), ..self }
    }

    /// The tree with `from` renamed onto `to`.
    pub open spec fn renamed(self, from: Seq<char>, to: Seq<char>) -> Tree {
        Tree { names: self.names.remove(from).insert(to, self.names[from]), ..self }
    }

    /// The tree without the name `path`.
    pub open spec fn without(self, path: Seq<char>) -> Tree {
        Tree { names: self.names.remove(path), ..self }
    }

    /// The tree with a copy of the bytes of `from` at `to`: in a new file
    /// with the permission bits `mode`, or in the file that is there.
    pub open spec fn copied(self, from: Seq<char>, to: Seq<char>, mode: u32) -> Tree {
        let content = self.inode(from).content;
        if self.has(to) {
            self.with_inode(to, Inode { content, ..self.inode(to) })
        } else {
            self.created(to, content, mode)
        }
    }

    /// What the tree answers to a request, and what it is afterwards.
    pub open spec fn answer(self, request: FsRequestView) -> (Tree, FsReplyView) {
        match request {
            FsRequestView::Exists { path } => (self, FsReplyView::Flag(self.has(path))),
            FsRequestView::Stat { path } => if self.has(path) {
                (self, FsReplyView::Stat(self.stat(path)))
            } else {
                (self, FsReplyView::Failed)
            },
            FsRequestView::ReadAt { path, offset, len } => if self.has(path) {
                let content = self.inode(path).content;
                let end = if offset + len <= content.len() {
                    offset + len
                } else {
                    content.len() as int
                };
                if offset <= content.len() {
                    (self, FsReplyView::Bytes(content.subrange(offset as int, end)))
                } else {
                    (self, FsReplyView::Bytes(Seq::empty()))
                }
            } else {
                (self, FsReplyView::Failed)
            },
            FsRequestView::RemoveFile { path } => if self.has(path) {
                (self.without(path), FsReplyView::Done)
            } else {
                (self, FsReplyView::Failed)
            },
            FsRequestView::Rename { from, to } => if self.has(from) {
                (self.renamed(from, to), FsReplyView::Done)
            } else {
                (self, FsReplyView::Failed)
            },
            FsRequestView::CopyFile { from, to } => if self.has(from) && self.next < u64::MAX {
                (self.copied(from, to, self.inode(from).mode), FsReplyView::Done)
            } else {
                (self, FsReplyView::Failed)
            },
            FsRequestView::CopyBytes { from, to } => if self.has(from) && self.next < u64::MAX {
                (self.copied(from, to, self.new_mode), FsReplyView::Done)
            } else {
                (self, FsReplyView::Failed)
            },
            FsRequestView::SyncFile { path } => if self.has(path) {
                (self, FsReplyView::Done)
            } else {
                (self, FsReplyView::Failed)
            },
            FsRequestView::Reflink { from, to } => if self.cow && self.has(from) && !self.has(to)
                && self.next < u64::MAX {
                (self.created(to, self.inode(from).content, self.new_mode), FsReplyView::Done)
            } else {
                (self, FsReplyView::Failed)
            },
            FsRequestView::HardLink { from, to } => if self.has(from) && !self.has(to) {
                (
                    Tree { names: self.names.insert(to, self.names[from]), ..self },
                    FsReplyView::Done,
                )
            } else {
                (self, FsReplyView::Failed)
            },
            FsRequestView::ListXattrs { path } => if self.has(path) {
                (self, FsReplyView::Names(attr_names(self.inode(path).xattrs)))
            } else {
                (self, FsReplyView::Failed)
            },
            FsRequestView::GetXattr { path, name } => if self.has(path) {
                let xattrs = self.inode(path).xattrs;
                (
                    self,
                    FsReplyView::Value(
                        match attr_index(xattrs, name, 0) {
                            Some(i) => Some(xattrs[i].value),
                            None => None,
                        },
                    ),
                )
            } else {
                (self, FsReplyView::Failed)
            },
            FsRequestView::SetXattr { path, name, value } => if self.has(path) {
                let inode = self.inode(path);
                (
                    self.with_inode(
                        path,
                        Inode { xattrs: attr_put(inode.xattrs, name, value), ..inode },
                    ),
                    FsReplyView::Done,
                )
            } else {
                (self, FsReplyView::Failed)
            },
            FsRequestView::SetPermissions { path, mode } => if self.has(path) {
                (self.with_inode(path, Inode { mode, ..self.inode(path) }), FsReplyView::Done)
            } else {
                (self, FsReplyView::Failed)
            },
            FsRequestView::SetMtime { path, seconds, nanos } => if self.has(path) {
                (
                    self.with_inode(
                        path,
                        Inode { mtime_seconds: seconds, mtime_nanos: nanos, ..self.inode(path) },
                    ),
                    FsReplyView::Done,
                )
            } else {
                (self, FsReplyView::Failed)
            },
            FsRequestView::QueryExtents { .. } => (self, FsReplyView::Failed),
            FsRequestView::CreateDirAll { .. } => (self, FsReplyView::Done),
            FsRequestView::IsDirEmpty { .. } => (self, FsReplyView::Flag(false)),
            FsRequestView::RemoveDir { .. } => (self, FsReplyView::Failed),
        }
    }
}

/// One round of a protocol on a tree: the tree answers the step's request
/// and the protocol is resumed with the answer. A protocol that has
/// finished stays as it is.
pub open spec fn round<J, T>(
    resume: spec_fn(J, FsReplyView) -> StepView<J, FsRequestView, T>,
    step: StepView<J, FsRequestView, T>,
    tree: Tree,
) -> (StepView<J, FsRequestView, T>, Tree) {
    match step {
        StepView::Finish(_) => (step, tree),
        StepView::Ask(job, request) => {
            let (after, reply) = tree.answer(request);
            (resume(job, reply), after)
        },
    }
}

/// The protocol and the tree after `rounds` rounds.
pub open spec fn after_rounds<J, T>(
    resume: spec_fn(J, FsReplyView) -> StepView<J, FsRequestView, T>,
    step: StepView<J, FsRequestView, T>,
    tree: Tree,
    rounds: nat,
) -> (StepView<J, FsRequestView, T>, Tree)
    decreases rounds,
{
    if rounds == 0 {
        (step, tree)
    } else {
        let next = round(resume, step, tree);
        after_rounds(resume, next.0, next.1, (rounds - 1) as nat)
    }
}

/// Run on `tree` from `step` on, the protocol finishes with `result` and
/// leaves the tree as `after`.
pub open spec fn ends<J, T>(
    resume: spec_fn(J, FsReplyView) -> StepView<J, FsRequestView, T>,
    step: StepView<J, FsRequestView, T>,
    tree: Tree,
    result: T,
    after: Tree,
) -> bool {
    exists|rounds: nat|
        #[trigger] after_rounds(resume, step, tree, rounds) == (
            StepView::<J, FsRequestView, T>::Finish(result),
            after,
        )
}

/// A protocol that has finished ends with its result and the tree as it
/// is.
pub proof fn lemma_ends_now<J, T>(
    resume: spec_fn(J, FsReplyView) -> StepView<J, FsRequestView, T>,
    result: T,
    tree: Tree,
)
    ensures
        ends(resume, StepView::Finish(result), tree, result, tree),
{
    assert(after_rounds(resume, StepView::<J, FsRequestView, T>::Finish(result), tree, 0) == (
        StepView::<J, FsRequestView, T>::Finish(result),
        tree,
    ));
}

/// A protocol ends as it ends after one more round.
pub proof fn lemma_ends_after_round<J, T>(
    resume: spec_fn(J, FsReplyView) -> StepView<J, FsRequestView, T>,
    step: StepView<J, FsRequestView, T>,
    tree: Tree,
    result: T,
    after: Tree,
)
    requires
        ends(resume, round(resume, step, tree).0, round(resume, step, tree).1, result, after),
    ensures
        ends(resume, step, tree, result, after),
{
    let next = round(resume, step, tree);
    let rounds = choose|rounds: nat|
        #[trigger] after_rounds(resume, next.0, next.1, rounds) == (
            StepView::<J, FsRequestView, T>::Finish(result),
            after,
        );
    assert(after_rounds(resume, step, tree, rounds + 1) == after_rounds(
        resume,
        next.0,
        next.1,
        rounds,
    ));
}

/// Among attributes of different names, each is the first of its name.
pub proof fn lemma_attr_index_of_own(xattrs: Seq<XattrView>, i: int, from: int)
    requires
        attr_names_differ(xattrs),
        0 <= from <= i < xattrs.len(),
    ensures
        attr_index(xattrs, xattrs[i].name, from) == Some(i),
    decreases i - from,
{
    if from < i {
        lemma_attr_index_of_own(xattrs, i, from + 1);
    }
}

/// A name that none of the attributes has is found at no index.
pub proof fn lemma_attr_index_of_none(xattrs: Seq<XattrView>, name: Seq<u8>, from: int)
    requires
        0 <= from,
        forall|k: int| from <= k < xattrs.len() ==> xattrs[k].name != name,
    ensures
        attr_index(xattrs, name, from).is_none(),
    decreases xattrs.len() - from,
{
    if from < xattrs.len() {
        lemma_attr_index_of_none(xattrs, name, from + 1);
    }
}

/// Attributes of different names, set one after the other on a file that
/// has the first `from` of them, leave the file with exactly these
/// attributes, in their order.
pub proof fn lemma_attr_put_all_rebuilds(xattrs: Seq<XattrView>, from: int)
    requires
        attr_names_differ(xattrs),
        0 <= from <= xattrs.len(),
    ensures
        attr_put_all(xattrs.subrange(0, from), xattrs, from) == xattrs,
    decreases xattrs.len() - from,
{
    if from < xattrs.len() {
        let have = xattrs.subrange(0, from);
        lemma_attr_index_of_none(have, xattrs[from].name, 0);
        assert(attr_put(have, xattrs[from].name, xattrs[from].value) =~= xattrs.subrange(
            0,
            from + 1,
        ));
        lemma_attr_put_all_rebuilds(xattrs, from + 1);
    } else {
        assert(xattrs.subrange(0, from) =~= xattrs);
    }
}

/// A model of the state store: its three tables, with no failures.
pub struct Store {
    /// The file index.
    pub files: Map<Seq<char>, FileMetadata>,
    /// The count index.
    pub counts: Map<crate::types::Hash, u64>,
    /// The vaulted inodes.
    pub vaulted: Set<u64>,
}

impl Store {
    /// What the store answers to a request, and what it is afterwards.
    pub open spec fn answer(self, request: StoreRequestView) -> (Store, StoreReply) {
        match request {
            StoreRequestView::UpsertFile { path, metadata } => (
                Store { files: self.files.insert(path, metadata), ..self },
                StoreReply::Done,
            ),
            StoreRequestView::GetFileMetadata { path } => (
                self,
                StoreReply::Metadata(
                    if self.files.contains_key(path) {
                        Some(self.files[path])
                    } else {
                        None
                    },
                ),
            ),
            StoreRequestView::RemoveFileFromIndex { path } => (
                Store { files: self.files.remove(path), ..self },
                StoreReply::Done,
            ),
            StoreRequestView::SetCasRefcount { hash, count } => (
                Store { counts: self.counts.insert(hash, count), ..self },
                StoreReply::Done,
            ),
            StoreRequestView::GetCasRefcount { hash } => (
                self,
                StoreReply::Count(
                    if self.counts.contains_key(hash) {
                        self.counts[hash]
                    } else {
                        0
                    },
                ),
            ),
            StoreRequestView::RemoveCasRefcount { hash } => (
                Store { counts: self.counts.remove(hash), ..self },
                StoreReply::Done,
            ),
            StoreRequestView::MarkInodeVaulted { inode } => (
                Store { vaulted: self.vaulted.insert(inode), ..self },
                StoreReply::Done,
            ),
            StoreRequestView::UnmarkInodeVaulted { inode } => (
                Store { vaulted: self.vaulted.remove(inode), ..self },
                StoreReply::Done,
            ),
            StoreRequestView::IsInodeVaulted { inode } => (
                self,
                StoreReply::Flag(self.vaulted.contains(inode)),
            ),
        }
    }
}

/// All that a run works on: the file tree, the state store, and the lines
/// that the user has been told.
pub struct World {
    pub tree: Tree,
    pub store: Store,
    pub told: Seq<ReportView>,
}

impl World {
    /// What the world answers to a request, and what it is afterwards.
    pub open spec fn answer(self, request: RequestView) -> (World, ReplyView) {
        match request {
            RequestView::Fs(request) => {
                let (tree, reply) = self.tree.answer(request);
                (World { tree, ..self }, ReplyView::Fs(reply))
            },
            RequestView::Store(request) => {
                let (store, reply) = self.store.answer(request);
                (World { store, ..self }, ReplyView::Store(reply))
            },
            RequestView::Tell(report) => (
                World { told: self.told.push(report), ..self },
                ReplyView::Told,
            ),
        }
    }
}

/// One round of a run in a world: the world answers the step's request
/// and the run is resumed with the answer. A run that has finished stays
/// as it is.
pub open spec fn world_round<J, T>(
    resume: spec_fn(J, ReplyView) -> StepView<J, RequestView, T>,
    step: StepView<J, RequestView, T>,
    world: World,
) -> (StepView<J, RequestView, T>, World) {
    match step {
        StepView::Finish(_) => (step, world),
        StepView::Ask(job, request) => {
            let (after, reply) = world.answer(request);
            (resume(job, reply), after)
        },
    }
}

/// The run and the world after `rounds` rounds.
pub open spec fn world_after<J, T>(
    resume: spec_fn(J, ReplyView) -> StepView<J, RequestView, T>,
    step: StepView<J, RequestView, T>,
    world: World,
    rounds: nat,
) -> (StepView<J, RequestView, T>, World)
    decreases rounds,
{
    if rounds == 0 {
        (step, world)
    } else {
        let next = world_round(resume, step, world);
        world_after(resume, next.0, next.1, (rounds - 1) as nat)
    }
}

/// From `step` in `world`, the run comes to `later` in the world `then`.
pub open spec fn reaches<J, T>(
    resume: spec_fn(J, ReplyView) -> StepView<J, RequestView, T>,
    step: StepView<J, RequestView, T>,
    world: World,
    later: StepView<J, RequestView, T>,
    then: World,
) -> bool {
    exists|rounds: nat| #[trigger] world_after(resume, step, world, rounds) == (later, then)
}

/// A run is where it is.
pub proof fn lemma_reaches_itself<J, T>(
    resume: spec_fn(J, ReplyView) -> StepView<J, RequestView, T>,
    step: StepView<J, RequestView, T>,
    world: World,
)
    ensures
        reaches(resume, step, world, step, world),
{
    assert(world_after(resume, step, world, 0) == (step, world));
}

/// A run comes where it comes after one more round.
pub proof fn lemma_reaches_after_round<J, T>(
    resume: spec_fn(J, ReplyView) -> StepView<J, RequestView, T>,
    step: StepView<J, RequestView, T>,
    world: World,
    later: StepView<J, RequestView, T>,
    then: World,
)
    requires
        reaches(
            resume,
            world_round(resume, step, world).0,
            world_round(resume, step, world).1,
            later,
            then,
        ),
    ensures
        reaches(resume, step, world, later, then),
{
    let next = world_round(resume, step, world);
    let rounds = choose|rounds: nat|
        #[trigger] world_after(resume, next.0, next.1, rounds) == (later, then);
    assert(world_after(resume, step, world, rounds + 1) == world_after(
        resume,
        next.0,
        next.1,
        rounds,
    ));
}

proof fn lemma_world_after_add<J, T>(
    resume: spec_fn(J, ReplyView) -> StepView<J, RequestView, T>,
    step: StepView<J, RequestView, T>,
    world: World,
    a: nat,
    b: nat,
)
    ensures
        world_after(resume, step, world, a + b) == world_after(
            resume,
            world_after(resume, step, world, a).0,
            world_after(resume, step, world, a).1,
            b,
        ),
    decreases a,
{
    if a > 0 {
        let next = world_round(resume, step, world);
        lemma_world_after_add(resume, next.0, next.1, (a - 1) as nat, b);
        assert(world_after(resume, step, world, a + b) == world_after(
            resume,
            next.0,
            next.1,
            (a + b - 1) as nat,
        ));
    }
}

/// Where a run comes to, from there it goes on.
pub proof fn lemma_reaches_on<J, T>(
    resume: spec_fn(J, ReplyView) -> StepView<J, RequestView, T>,
    step: StepView<J, RequestView, T>,
    world: World,
    between: StepView<J, RequestView, T>,
    meanwhile: World,
    later: StepView<J, RequestView, T>,
    then: World,
)
    requires
        reaches(resume, step, world, between, meanwhile),
        reaches(resume, between, meanwhile, later, then),
    ensures
        reaches(resume, step, world, later, then),
{
    let a = choose|rounds: nat|
        #[trigger] world_after(resume, step, world, rounds) == (between, meanwhile);
    let b = choose|rounds: nat|
        #[trigger] world_after(resume, between, meanwhile, rounds) == (later, then);
    lemma_world_after_add(resume, step, world, a, b);
}

/// The run passes the requests of a protocol on to the file tree and
/// resumes the protocol with the answers: `wrap` says how the run stands
/// at each step of the protocol.
pub open spec fn relays<J, T, S, R>(
    resume: spec_fn(J, ReplyView) -> StepView<J, RequestView, T>,
    protocol: spec_fn(S, FsReplyView) -> StepView<S, FsRequestView, R>,
    wrap: spec_fn(StepView<S, FsRequestView, R>) -> StepView<J, RequestView, T>,
) -> bool {
    forall|job: S, request: FsRequestView, reply: FsReplyView|
        #![trigger wrap(StepView::Ask(job, request)), protocol(job, reply)]
        {
            let outer = wrap(StepView::Ask(job, request));
            &&& outer is Ask
            &&& outer->Ask_1 == RequestView::Fs(request)
            &&& resume(outer->Ask_0, ReplyView::Fs(reply)) == wrap(protocol(job, reply))
        }
}

/// A run that passes a protocol on comes to where the protocol ends, with
/// the tree as the protocol leaves it and the rest of the world as it
/// was.
pub proof fn lemma_relay<J, T, S, R>(
    resume: spec_fn(J, ReplyView) -> StepView<J, RequestView, T>,
    protocol: spec_fn(S, FsReplyView) -> StepView<S, FsRequestView, R>,
    wrap: spec_fn(StepView<S, FsRequestView, R>) -> StepView<J, RequestView, T>,
    step: StepView<S, FsRequestView, R>,
    world: World,
    result: R,
    after: Tree,
)
    requires
        relays(resume, protocol, wrap),
        ends(protocol, step, world.tree, result, after),
    ensures
        reaches(
            resume,
            wrap(step),
            world,
            wrap(StepView::Finish(result)),
            World { tree: after, ..world },
        ),
{
    let rounds = choose|rounds: nat|
        #[trigger] after_rounds(protocol, step, world.tree, rounds) == (
            StepView::<S, FsRequestView, R>::Finish(result),
            after,
        );
    lemma_relay_rounds(resume, protocol, wrap, step, world, result, after, rounds);
}

proof fn lemma_relay_rounds<J, T, S, R>(
    resume: spec_fn(J, ReplyView) -> StepView<J, RequestView, T>,
    protocol: spec_fn(S, FsReplyView) -> StepView<S, FsRequestView, R>,
    wrap: spec_fn(StepView<S, FsRequestView, R>) -> StepView<J, RequestView, T>,
    step: StepView<S, FsRequestView, R>,
    world: World,
    result: R,
    after: Tree,
    rounds: nat,
)
    requires
        relays(resume, protocol, wrap),
        after_rounds(protocol, step, world.tree, rounds) == (
            StepView::<S, FsRequestView, R>::Finish(result),
            after,
        ),
    ensures
        reaches(
            resume,
            wrap(step),
            world,
            wrap(StepView::Finish(result)),
            World { tree: after, ..world },
        ),
    decreases rounds,
{
    let end = wrap(StepView::Finish(result));
    let then = World { tree: after, ..world };
    match step {
        StepView::Finish(ended) => {
            assert(after_rounds(protocol, step, world.tree, rounds) == (step, world.tree)) by {
                lemma_finished_stays(protocol, step, world.tree, rounds);
            }
            assert(then == world);
            lemma_reaches_itself(resume, wrap(step), world);
        },
        StepView::Ask(job, request) => {
            assert(rounds > 0);
            let (tree, reply) = world.tree.answer(request);
            let next = protocol(job, reply);
            let meanwhile = World { tree, ..world };
            assert(round(protocol, step, world.tree) == (next, tree));
            assert(after_rounds(protocol, next, tree, (rounds - 1) as nat) == (
                StepView::<S, FsRequestView, R>::Finish(result),
                after,
            ));
            lemma_relay_rounds(
                resume,
                protocol,
                wrap,
                next,
                meanwhile,
                result,
                after,
                (rounds - 1) as nat,
            );
            let run = wrap(step)->Ask_0;
            assert(wrap(step) == StepView::<J, RequestView, T>::Ask(run, RequestView::Fs(request)));
            assert(resume(run, ReplyView::Fs(reply)) == wrap(next));
            assert(world_round(resume, wrap(step), world) == (wrap(next), meanwhile));
            assert(World { tree: after, ..meanwhile } == then);
            lemma_reaches_after_round(resume, wrap(step), world, end, then);
        },
    }
}

proof fn lemma_finished_stays<J, T>(
    resume: spec_fn(J, FsReplyView) -> StepView<J, FsRequestView, T>,
    step: StepView<J, FsRequestView, T>,
    tree: Tree,
    rounds: nat,
)
    requires
        step is Finish,
    ensures
        after_rounds(resume, step, tree, rounds) == (step, tree),
    decreases rounds,
{
    if rounds > 0 {
        lemma_finished_stays(resume, step, tree, (rounds - 1) as nat);
    }
}

/// Setting attributes of different names again, to the values they
/// have, from index `from` on, leaves them as they are.
pub proof fn lemma_attr_put_all_again(xattrs: Seq<XattrView>, from: int)
    requires
        attr_names_differ(xattrs),
        0 <= from <= xattrs.len(),
    ensures
        attr_put_all(xattrs, xattrs, from) == xattrs,
    decreases xattrs.len() - from,
{
    if from < xattrs.len() {
        lemma_attr_index_of_own(xattrs, from, 0);
        assert(attr_put(xattrs, xattrs[from].name, xattrs[from].value) =~= xattrs);
        lemma_attr_put_all_again(xattrs, from + 1);
    }
}

/// What the search for an attribute finds: the first attribute of the
/// name at or after `from`, or that there is none.
pub proof fn lemma_attr_index_finds(xattrs: Seq<XattrView>, name: Seq<u8>, from: int)
    requires
        0 <= from,
    ensures
        match attr_index(xattrs, name, from) {
            Some(i) => from <= i < xattrs.len() && xattrs[i].name == name,
            None => forall|k: int| from <= k < xattrs.len() ==> xattrs[k].name != name,
        },
    decreases xattrs.len() - from,
{
    if from < xattrs.len() && xattrs[from].name != name {
        lemma_attr_index_finds(xattrs, name, from + 1);
    }
}

/// Setting attributes on a file leaves no two attributes of one name.
pub proof fn lemma_attr_put_all_keeps_names_apart(
    xattrs: Seq<XattrView>,
    puts: Seq<XattrView>,
    from: int,
)
    requires
        attr_names_differ(xattrs),
        0 <= from,
    ensures
        attr_names_differ(attr_put_all(xattrs, puts, from)),
    decreases puts.len() - from,
{
    if from < puts.len() {
        let name = puts[from].name;
        let next = attr_put(xattrs, name, puts[from].value);
        lemma_attr_index_finds(xattrs, name, 0);
        assert(attr_names_differ(next)) by {
            assert forall|i: int, j: int| 0 <= i < j < next.len() implies next[i].name
                != next[j].name by {
                match attr_index(xattrs, name, 0) {
                    Some(at) => {
                        assert(next[i].name == xattrs[i].name);
                        assert(next[j].name == xattrs[j].name);
                    },
                    None => {
                        if j < xattrs.len() {
                            assert(next[i].name == xattrs[i].name);
                            assert(next[j].name == xattrs[j].name);
                        } else {
                            assert(next[i].name == xattrs[i].name);
                        }
                    },
                }
            }
        }
        lemma_attr_put_all_keeps_names_apart(next, puts, from + 1);
    }
}

} // verus!
