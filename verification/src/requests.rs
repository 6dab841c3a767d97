//! The vocabulary between the library and whoever performs its requests.
//!
//! A protocol of this library never touches a file. It asks for one operation
//! at a time with an [`FsRequest`], and is resumed with the [`FsReply`] to it.
//! Each executable type has a mathematical twin, reached by `@`, over which
//! the protocols' transition functions are stated.

use vstd::prelude::*;

verus! {

/// What a `Stat` request reports of a file.
#[derive(Debug, Clone, Copy, PartialEq, Eq, Structural)]
pub struct FileStat {
    pub size: u64,
    pub inode: u64,
    /// The permission bits.
    pub mode: u32,
    /// Last modification: whole seconds since the epoch, negative before it.
    pub mtime_seconds: i64,
    pub mtime_nanos: u32,
}

/// One allocated extent of a file, as an extent query reports it.
#[derive(Debug, Clone, Copy, PartialEq, Eq, Structural)]
pub struct Extent {
    /// Offset of the extent's first byte in the file.
    pub logical: u64,
    pub length: u64,
}

/// An extended attribute: a name and its value.
#[derive(Debug, Clone)]
pub struct Xattr {
    pub name: Vec<u8>,
    pub value: Vec<u8>,
}

/// The mathematical twin of [`Xattr`].
pub struct XattrView {
    pub name: Seq<u8>,
    pub value: Seq<u8>,
}

impl View for Xattr {
    type V = XattrView;

    open spec fn view(&self) -> XattrView {
        XattrView { name: self.name@, value: self.value@ }
    }
}

/// The twins of a list of attributes, in order.
pub open spec fn xattrs_view(xattrs: Seq<Xattr>) -> Seq<XattrView> {
    xattrs.map_values(|x: Xattr| x@)
}

/// The twins of a list of byte strings, in order.
pub open spec fn names_view(names: Seq<Vec<u8>>) -> Seq<Seq<u8>> {
    names.map_values(|n: Vec<u8>| n@)
}

/// One operation on the file tree, asked of the caller.
#[derive(Debug)]
pub enum FsRequest {
    /// Is there anything at `path`? Answered by `Flag`.
    Exists { path: String },
    /// The metadata of the file at `path`, following links. Answered by `Stat`.
    Stat { path: String },
    /// Up to `len` bytes of the file at `path`, from `offset` on; fewer only
    /// where the file ends. Answered by `Bytes`.
    ReadAt { path: String, offset: u64, len: usize },
    /// The allocated extents of the file at `path` from `start` on, in file
    /// order. Answered by `Extents`.
    QueryExtents { path: String, start: u64 },
    RemoveFile { path: String },
    /// Rename `from` onto `to`, replacing what is there.
    Rename { from: String, to: String },
    /// Copy the file `from` to `to` by whatever means the platform offers.
    CopyFile { from: String, to: String },
    /// Copy the bytes of `from` into a newly created `to`, byte by byte, so
    /// that `to` shares no storage with `from`.
    CopyBytes { from: String, to: String },
    /// Flush the file at `path` to stable storage.
    SyncFile { path: String },
    /// Create the directory `path` and its missing parents.
    CreateDirAll { path: String },
    /// Can the directory `path` be listed, and is it empty? Answered by `Flag`.
    IsDirEmpty { path: String },
    RemoveDir { path: String },
    /// Make `to` a copy-on-write clone of `from`.
    Reflink { from: String, to: String },
    /// Make `to` a second name of the file `from`.
    HardLink { from: String, to: String },
    /// The names of the extended attributes of `path`. Answered by `Names`.
    ListXattrs { path: String },
    /// The value of one extended attribute of `path`. Answered by `Value`.
    GetXattr { path: String, name: Vec<u8> },
    SetXattr { path: String, name: Vec<u8>, value: Vec<u8> },
    SetPermissions { path: String, mode: u32 },
    SetMtime { path: String, seconds: i64, nanos: u32 },
}

/// The mathematical twin of [`FsRequest`].
pub enum FsRequestView {
    Exists { path: Seq<char> },
    Stat { path: Seq<char> },
    ReadAt { path: Seq<char>, offset: u64, len: usize },
    QueryExtents { path: Seq<char>, start: u64 },
    RemoveFile { path: Seq<char> },
    Rename { from: Seq<char>, to: Seq<char> },
    CopyFile { from: Seq<char>, to: Seq<char> },
    CopyBytes { from: Seq<char>, to: Seq<char> },
    SyncFile { path: Seq<char> },
    CreateDirAll { path: Seq<char> },
    IsDirEmpty { path: Seq<char> },
    RemoveDir { path: Seq<char> },
    Reflink { from: Seq<char>, to: Seq<char> },
    HardLink { from: Seq<char>, to: Seq<char> },
    ListXattrs { path: Seq<char> },
    GetXattr { path: Seq<char>, name: Seq<u8> },
    SetXattr { path: Seq<char>, name: Seq<u8>, value: Seq<u8> },
    SetPermissions { path: Seq<char>, mode: u32 },
    SetMtime { path: Seq<char>, seconds: i64, nanos: u32 },
}

impl View for FsRequest {
    type V = FsRequestView;

    open spec fn view(&self) -> FsRequestView {
        match *self {
            FsRequest::Exists { path } => FsRequestView::Exists { path: path@ },
            FsRequest::Stat { path } => FsRequestView::Stat { path: path@ },
            FsRequest::ReadAt { path, offset, len } => FsRequestView::ReadAt {
                path: path@,
                offset,
                len,
            },
            FsRequest::QueryExtents { path, start } => FsRequestView::QueryExtents {
                path: path@,
                start,
            },
            FsRequest::RemoveFile { path } => FsRequestView::RemoveFile { path: path@ },
            FsRequest::Rename { from, to } => FsRequestView::Rename { from: from@, to: to@ },
            FsRequest::CopyFile { from, to } => FsRequestView::CopyFile { from: from@, to: to@ },
            FsRequest::CopyBytes { from, to } => FsRequestView::CopyBytes { from: from@, to: to@ },
            FsRequest::SyncFile { path } => FsRequestView::SyncFile { path: path@ },
            FsRequest::CreateDirAll { path } => FsRequestView::CreateDirAll { path: path@ },
            FsRequest::IsDirEmpty { path } => FsRequestView::IsDirEmpty { path: path@ },
            FsRequest::RemoveDir { path } => FsRequestView::RemoveDir { path: path@ },
            FsRequest::Reflink { from, to } => FsRequestView::Reflink { from: from@, to: to@ },
            FsRequest::HardLink { from, to } => FsRequestView::HardLink { from: from@, to: to@ },
            FsRequest::ListXattrs { path } => FsRequestView::ListXattrs { path: path@ },
            FsRequest::GetXattr { path, name } => FsRequestView::GetXattr {
                path: path@,
                name: name@,
            },
            FsRequest::SetXattr { path, name, value } => FsRequestView::SetXattr {
                path: path@,
                name: name@,
                value: value@,
            },
            FsRequest::SetPermissions { path, mode } => FsRequestView::SetPermissions {
                path: path@,
                mode,
            },
            FsRequest::SetMtime { path, seconds, nanos } => FsRequestView::SetMtime {
                path: path@,
                seconds,
                nanos,
            },
        }
    }
}

/// The request changes nothing in the file tree: it only looks.
pub open spec fn fs_reads_only(request: FsRequestView) -> bool {
    request is Exists || request is Stat || request is ReadAt || request is QueryExtents
        || request is IsDirEmpty || request is ListXattrs || request is GetXattr
}

/// The request gives the name `path` to a file, takes it from one, or
/// removes the file at `path`.
pub open spec fn rebinds(request: FsRequestView, path: Seq<char>) -> bool {
    match request {
        FsRequestView::RemoveFile { path: removed } => removed == path,
        FsRequestView::Rename { from, to } => from == path || to == path,
        FsRequestView::CopyFile { to, .. } => to == path,
        FsRequestView::CopyBytes { to, .. } => to == path,
        FsRequestView::Reflink { to, .. } => to == path,
        FsRequestView::HardLink { to, .. } => to == path,
        _ => false,
    }
}

/// The caller's answer to an [`FsRequest`].
///
/// A protocol that is resumed with an answer of another shape than its
/// request calls for treats the operation as failed.
#[derive(Debug)]
pub enum FsReply {
    /// The operation succeeded and has nothing to report.
    Done,
    /// The operation failed.
    Failed,
    Flag(bool),
    Stat(FileStat),
    Bytes(Vec<u8>),
    Extents(Vec<Extent>),
    Names(Vec<Vec<u8>>),
    /// The attribute's value, or `None` where the file has no such attribute.
    Value(Option<Vec<u8>>),
}

/// The mathematical twin of [`FsReply`].
pub enum FsReplyView {
    Done,
    Failed,
    Flag(bool),
    Stat(FileStat),
    Bytes(Seq<u8>),
    Extents(Seq<Extent>),
    Names(Seq<Seq<u8>>),
    Value(Option<Seq<u8>>),
}

impl View for FsReply {
    type V = FsReplyView;

    open spec fn view(&self) -> FsReplyView {
        match *self {
            FsReply::Done => FsReplyView::Done,
            FsReply::Failed => FsReplyView::Failed,
            FsReply::Flag(b) => FsReplyView::Flag(b),
            FsReply::Stat(s) => FsReplyView::Stat(s),
            FsReply::Bytes(b) => FsReplyView::Bytes(b@),
            FsReply::Extents(e) => FsReplyView::Extents(e@),
            FsReply::Names(n) => FsReplyView::Names(names_view(n@)),
            FsReply::Value(v) => FsReplyView::Value(
                match v {
                    Some(bytes) => Some(bytes@),
                    None => None,
                },
            ),
        }
    }
}

/// What a protocol hands back when it is started or resumed: either its
/// remaining state together with the next request, or its result. A protocol
/// that has finished has no state left to resume.
#[derive(Debug)]
pub enum Step<J, R, T> {
    Ask(J, R),
    Finish(T),
}

/// The mathematical twin of [`Step`]: the twins of the state and of the
/// request, and the result as it is.
pub enum StepView<J, R, T> {
    Ask(J, R),
    Finish(T),
}

impl<J: View, R: View, T> View for Step<J, R, T> {
    type V = StepView<J::V, R::V, T>;

    open spec fn view(&self) -> StepView<J::V, R::V, T> {
        match *self {
            Step::Ask(job, request) => StepView::Ask(job@, request@),
            Step::Finish(result) => StepView::Finish(result),
        }
    }
}

/// A copy of a byte string.
pub fn clone_bytes(bytes: &Vec<u8>) -> (copy: Vec<u8>)
    ensures
        copy@ == bytes@,
{
    bytes.clone()
}

/// Whether the reply reports success without a value.
pub fn reply_is_done(reply: &FsReply) -> (done: bool)
    ensures
        done == (reply@ is Done),
{
    match reply {
        FsReply::Done => true,
        _ => false,
    }
}

/// Whether the reply is the flag `true`.
pub fn reply_is_yes(reply: &FsReply) -> (yes: bool)
    ensures
        yes == (reply@ == FsReplyView::Flag(true)),
{
    match reply {
        FsReply::Flag(flag) => *flag,
        _ => false,
    }
}

} // verus!
