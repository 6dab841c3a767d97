//! The state store: its three tables, what is asked of it, and the byte
//! formats of its keys and values.
//!
//! The store itself is a key-value store that the caller keeps. The library
//! turns each request into one operation on raw bytes and reads the raw
//! reply back.

use vstd::prelude::*;
use vstd::bytes::*;
use vstd::string::*;
use vstd::slice::*;
use crate::types::FileMetadata;

verus! {

/// The tables of the store.
#[derive(Debug, Clone, Copy, PartialEq, Eq, Structural)]
pub enum Table {
    /// Path to `FileMetadata`.
    FileIndex,
    /// Digest to the number of tree files that share its master.
    CasIndex,
    /// The inodes that are hard links to a master.
    VaultedInodes,
}

/// Length of an encoded `FileMetadata`.
pub const METADATA_LEN: usize = 48;

/// A request to the store.
#[derive(Debug)]
pub enum StoreRequest {
    UpsertFile { path: String, metadata: FileMetadata },
    GetFileMetadata { path: String },
    RemoveFileFromIndex { path: String },
    SetCasRefcount { hash: crate::types::Hash, count: u64 },
    GetCasRefcount { hash: crate::types::Hash },
    RemoveCasRefcount { hash: crate::types::Hash },
    MarkInodeVaulted { inode: u64 },
    UnmarkInodeVaulted { inode: u64 },
    IsInodeVaulted { inode: u64 },
}

/// The mathematical twin of [`StoreRequest`].
pub enum StoreRequestView {
    UpsertFile { path: Seq<char>, metadata: FileMetadata },
    GetFileMetadata { path: Seq<char> },
    RemoveFileFromIndex { path: Seq<char> },
    SetCasRefcount { hash: crate::types::Hash, count: u64 },
    GetCasRefcount { hash: crate::types::Hash },
    RemoveCasRefcount { hash: crate::types::Hash },
    MarkInodeVaulted { inode: u64 },
    UnmarkInodeVaulted { inode: u64 },
    IsInodeVaulted { inode: u64 },
}

impl View for StoreRequest {
    type V = StoreRequestView;

    open spec fn view(&self) -> StoreRequestView {
        match *self {
            StoreRequest::UpsertFile { path, metadata } => StoreRequestView::UpsertFile {
                path: path@,
                metadata,
            },
            StoreRequest::GetFileMetadata { path } => StoreRequestView::GetFileMetadata {
                path: path@,
            },
            StoreRequest::RemoveFileFromIndex { path } => StoreRequestView::RemoveFileFromIndex {
                path: path@,
            },
            StoreRequest::SetCasRefcount { hash, count } => StoreRequestView::SetCasRefcount {
                hash,
                count,
            },
            StoreRequest::GetCasRefcount { hash } => StoreRequestView::GetCasRefcount { hash },
            StoreRequest::RemoveCasRefcount { hash } => StoreRequestView::RemoveCasRefcount {
                hash,
            },
            StoreRequest::MarkInodeVaulted { inode } => StoreRequestView::MarkInodeVaulted {
                inode,
            },
            StoreRequest::UnmarkInodeVaulted { inode } => StoreRequestView::UnmarkInodeVaulted {
                inode,
            },
            StoreRequest::IsInodeVaulted { inode } => StoreRequestView::IsInodeVaulted { inode },
        }
    }
}

/// The request changes nothing in the store: it only looks.
pub open spec fn store_reads_only(request: StoreRequestView) -> bool {
    request is GetFileMetadata || request is GetCasRefcount || request is IsInodeVaulted
}

/// The store's answer to a [`StoreRequest`].
#[derive(Debug, Clone, Copy)]
pub enum StoreReply {
    /// The write was committed.
    Done,
    /// The store failed, or holds bytes that are none of its formats.
    Failed,
    /// The record of a path, or `None` where the index has none.
    Metadata(Option<FileMetadata>),
    /// The count of a digest; zero where the index has none.
    Count(u64),
    /// Whether the inode is marked.
    Flag(bool),
}

/// What an operation on raw bytes does.
#[derive(Debug, Clone, Copy, PartialEq, Eq, Structural)]
pub enum RawKind {
    /// Write `value` under `key`, over what was there.
    Put,
    /// Read the value under `key`.
    Get,
    /// Remove `key`.
    Delete,
}

/// One operation of the key-value store, on raw bytes.
#[derive(Debug)]
pub struct RawRequest {
    pub table: Table,
    pub kind: RawKind,
    pub key: Vec<u8>,
    /// The value to write; empty unless `kind` is `Put`.
    pub value: Vec<u8>,
}

/// The mathematical twin of [`RawRequest`].
pub struct RawRequestView {
    pub table: Table,
    pub kind: RawKind,
    pub key: Seq<u8>,
    pub value: Seq<u8>,
}

impl View for RawRequest {
    type V = RawRequestView;

    open spec fn view(&self) -> RawRequestView {
        RawRequestView { table: self.table, kind: self.kind, key: self.key@, value: self.value@ }
    }
}

/// The key-value store's answer to a [`RawRequest`].
#[derive(Debug)]
pub enum RawReply {
    /// The write or removal was committed.
    Done,
    Failed,
    /// The value under the key.
    Found(Vec<u8>),
    /// The table has no such key, or the store no such table.
    Missing,
}

/// The mathematical twin of [`RawReply`].
pub enum RawReplyView {
    Done,
    Failed,
    Found(Seq<u8>),
    Missing,
}

impl View for RawReply {
    type V = RawReplyView;

    open spec fn view(&self) -> RawReplyView {
        match *self {
            RawReply::Done => RawReplyView::Done,
            RawReply::Failed => RawReplyView::Failed,
            RawReply::Found(value) => RawReplyView::Found(value@),
            RawReply::Missing => RawReplyView::Missing,
        }
    }
}

/// The key of a path: its bytes in UTF-8.
pub open spec fn path_key_of(path: Seq<char>) -> Seq<u8> {
    vstd::utf8::encode_utf8(path)
}

/// The key of an inode, and the value of a count: the number's eight bytes,
/// lowest first.
pub open spec fn number_bytes(n: u64) -> Seq<u8> {
    spec_u64_to_le_bytes(n)
}

/// The value of a record: size, modification time and digest, in this
/// order, each number as its eight bytes, lowest first.
pub open spec fn metadata_bytes(metadata: FileMetadata) -> Seq<u8> {
    spec_u64_to_le_bytes(metadata.size) + spec_u64_to_le_bytes(metadata.modified)
        + metadata.hash@
}

/// The bytes hold a record in their first `METADATA_LEN` bytes; what
/// follows them is not looked at.
pub open spec fn holds_metadata(bytes: Seq<u8>) -> bool {
    bytes.len() >= METADATA_LEN
}

/// The record `metadata` is what `bytes` hold.
pub open spec fn is_metadata_of(metadata: FileMetadata, bytes: Seq<u8>) -> bool {
    &&& holds_metadata(bytes)
    &&& metadata.size == spec_u64_from_le_bytes(bytes.subrange(0, 8))
    &&& metadata.modified == spec_u64_from_le_bytes(bytes.subrange(8, 16))
    &&& metadata.hash@ == bytes.subrange(16, 48)
}

/// The count that `bytes` hold, if they are eight bytes.
pub open spec fn count_of(bytes: Seq<u8>) -> Option<u64> {
    if bytes.len() == 8 {
        Some(spec_u64_from_le_bytes(bytes))
    } else {
        None
    }
}

/// The value under which an inode is marked.
pub open spec fn mark_bytes() -> Seq<u8> {
    seq![1u8]
}

/// `bincode::serialize`, on the triple of a record's size, modification time
/// and digest: the numbers as eight little-endian bytes each, then the digest.
/// It cannot fail here: no size limit, fixed-width integers, a `Vec` to fill.
#[verifier::external_body]
fn bincode_serialize(metadata: &FileMetadata) -> (bytes: Option<Vec<u8>>)
    ensures
        bytes is Some,
        bytes matches Some(b) ==> b@ == metadata_bytes(*metadata),
{
    bincode::serialize(&(metadata.size, metadata.modified, metadata.hash)).ok()
}

/// `bincode::deserialize`, to the triple of a record's size, modification
/// time and digest: it reads the first 48 bytes, ignores what follows them,
/// and fails exactly where there are fewer.
#[verifier::external_body]
fn bincode_deserialize(bytes: &[u8]) -> (metadata: Option<FileMetadata>)
    ensures
        metadata.is_some() == holds_metadata(bytes@),
        metadata matches Some(m) ==> is_metadata_of(m, bytes@),
{
    bincode::deserialize::<(u64, u64, [u8; 32])>(bytes).ok().map(
        |t| FileMetadata { size: t.0, modified: t.1, hash: t.2 },
    )
}

/// The bytes of a record, as the file index stores it: always `Some`, of
/// `METADATA_LEN` bytes. The encoder's own signature allows for an error.
pub fn encode_metadata(metadata: &FileMetadata) -> (bytes: Option<Vec<u8>>)
    ensures
        bytes matches Some(b) && b@ == metadata_bytes(*metadata) && b@.len() == METADATA_LEN,
{
    let bytes = bincode_serialize(metadata);
    proof {
        lemma_auto_spec_u64_to_from_le_bytes();
    }
    bytes
}

/// The record that stored bytes hold; `None` where they are too short.
pub fn decode_metadata(bytes: &[u8]) -> (metadata: Option<FileMetadata>)
    ensures
        metadata.is_some() == holds_metadata(bytes@),
        metadata matches Some(m) ==> is_metadata_of(m, bytes@),
{
    bincode_deserialize(bytes)
}

/// A record is read back from its own bytes as it was written.
pub proof fn lemma_metadata_round_trip(metadata: FileMetadata, read: FileMetadata)
    requires
        is_metadata_of(read, metadata_bytes(metadata)),
    ensures
        read.size == metadata.size,
        read.modified == metadata.modified,
        read.hash == metadata.hash,
{
    lemma_auto_spec_u64_to_from_le_bytes();
    let bytes = metadata_bytes(metadata);
    let size = spec_u64_to_le_bytes(metadata.size);
    let modified = spec_u64_to_le_bytes(metadata.modified);
    assert(bytes.subrange(0, 8) =~= size);
    assert(bytes.subrange(8, 16) =~= modified);
    assert(bytes.subrange(16, 48) =~= metadata.hash@);
    assert(read.hash@ =~= metadata.hash@);
    assert(read.hash =~= metadata.hash);
}

/// The bytes of a record hold a record.
pub proof fn lemma_metadata_bytes_len(metadata: FileMetadata)
    ensures
        metadata_bytes(metadata).len() == METADATA_LEN,
        holds_metadata(metadata_bytes(metadata)),
{
    lemma_auto_spec_u64_to_from_le_bytes();
}

/// A count is read back from its own bytes as it was written.
pub proof fn lemma_count_round_trip(count: u64)
    ensures
        count_of(number_bytes(count)) == Some(count),
{
    lemma_auto_spec_u64_to_from_le_bytes();
}

/// The key of a path in the file index.
pub fn path_key(path: &str) -> (key: Vec<u8>)
    ensures
        key@ == path_key_of(path@),
{
    path.as_bytes_vec()
}

/// The key of a digest in the count index: its 32 bytes.
pub fn hash_key(hash: &crate::types::Hash) -> (key: Vec<u8>)
    ensures
        key@ == hash@,
{
    let mut key: Vec<u8> = Vec::new();
    let mut i: usize = 0;
    while i < 32
        invariant
            i <= 32,
            key@ == hash@.subrange(0, i as int),
        decreases 32 - i,
    {
        key.push(hash[i]);
        assert(key@ =~= hash@.subrange(0, i + 1));
        i += 1;
    }
    assert(key@ =~= hash@);
    key
}

/// The key of an inode among the vaulted inodes.
pub fn inode_key(inode: u64) -> (key: Vec<u8>)
    ensures
        key@ == number_bytes(inode),
{
    u64_to_le_bytes(inode)
}

/// The stored form of a count.
pub fn encode_count(count: u64) -> (bytes: Vec<u8>)
    ensures
        bytes@ == number_bytes(count),
{
    u64_to_le_bytes(count)
}

/// The count that stored bytes hold; `None` unless they are eight bytes.
pub fn decode_count(bytes: &[u8]) -> (count: Option<u64>)
    ensures
        count == count_of(bytes@),
{
    if bytes.len() == 8 {
        Some(u64_from_le_bytes(bytes))
    } else {
        None
    }
}

/// The raw operation that a request stands for.
///
/// A write into the file index puts the record's bytes under the path's
/// key; a count goes as its eight bytes under the digest; an inode is
/// marked by the single byte 1 under its eight bytes.
pub open spec fn raw_of(request: StoreRequestView, raw: RawRequestView) -> bool {
    match request {
        StoreRequestView::UpsertFile { path, metadata } => raw == (RawRequestView {
            table: Table::FileIndex,
            kind: RawKind::Put,
            key: path_key_of(path),
            value: metadata_bytes(metadata),
        }),
        StoreRequestView::GetFileMetadata { path } => raw == (RawRequestView {
            table: Table::FileIndex,
            kind: RawKind::Get,
            key: path_key_of(path),
            value: Seq::empty(),
        }),
        StoreRequestView::RemoveFileFromIndex { path } => raw == (RawRequestView {
            table: Table::FileIndex,
            kind: RawKind::Delete,
            key: path_key_of(path),
            value: Seq::empty(),
        }),
        StoreRequestView::SetCasRefcount { hash, count } => raw == (RawRequestView {
            table: Table::CasIndex,
            kind: RawKind::Put,
            key: hash@,
            value: number_bytes(count),
        }),
        StoreRequestView::GetCasRefcount { hash } => raw == (RawRequestView {
            table: Table::CasIndex,
            kind: RawKind::Get,
            key: hash@,
            value: Seq::empty(),
        }),
        StoreRequestView::RemoveCasRefcount { hash } => raw == (RawRequestView {
            table: Table::CasIndex,
            kind: RawKind::Delete,
            key: hash@,
            value: Seq::empty(),
        }),
        StoreRequestView::MarkInodeVaulted { inode } => raw == (RawRequestView {
            table: Table::VaultedInodes,
            kind: RawKind::Put,
            key: number_bytes(inode),
            value: mark_bytes(),
        }),
        StoreRequestView::UnmarkInodeVaulted { inode } => raw == (RawRequestView {
            table: Table::VaultedInodes,
            kind: RawKind::Delete,
            key: number_bytes(inode),
            value: Seq::empty(),
        }),
        StoreRequestView::IsInodeVaulted { inode } => raw == (RawRequestView {
            table: Table::VaultedInodes,
            kind: RawKind::Get,
            key: number_bytes(inode),
            value: Seq::empty(),
        }),
    }
}

/// What a raw reply means as the answer to `request`.
///
/// A write or removal succeeded only on `Done`. A read that finds nothing
/// answers with no record, the count zero, or an unmarked inode; one that
/// finds bytes answers with what they hold, and fails where they hold
/// neither a record nor a count. Any value marks an inode.
pub open spec fn reply_of(request: StoreRequestView, raw: RawReplyView, reply: StoreReply) -> bool {
    match request {
        StoreRequestView::GetFileMetadata { .. } => match raw {
            RawReplyView::Missing => reply matches StoreReply::Metadata(None),
            RawReplyView::Found(bytes) => if holds_metadata(bytes) {
                reply matches StoreReply::Metadata(Some(m)) && is_metadata_of(m, bytes)
            } else {
                reply is Failed
            },
            _ => reply is Failed,
        },
        StoreRequestView::GetCasRefcount { .. } => match raw {
            RawReplyView::Missing => reply matches StoreReply::Count(0),
            RawReplyView::Found(bytes) => match count_of(bytes) {
                Some(count) => reply matches StoreReply::Count(c) && c == count,
                None => reply is Failed,
            },
            _ => reply is Failed,
        },
        StoreRequestView::IsInodeVaulted { .. } => match raw {
            RawReplyView::Missing => reply matches StoreReply::Flag(false),
            RawReplyView::Found(_) => reply matches StoreReply::Flag(true),
            _ => reply is Failed,
        },
        _ => match raw {
            RawReplyView::Done => reply is Done,
            _ => reply is Failed,
        },
    }
}

fn raw(table: Table, kind: RawKind, key: Vec<u8>, value: Vec<u8>) -> (request: RawRequest)
    ensures
        request@ == (RawRequestView { table, kind, key: key@, value: value@ }),
{
    RawRequest { table, kind, key, value }
}

impl StoreRequest {
    /// The raw operation that this request stands for: always `Some`, as
    /// every record can be encoded.
    pub fn encode(&self) -> (raw: Option<RawRequest>)
        ensures
            raw matches Some(r) && raw_of(self@, r@),
    {
        match self {
            StoreRequest::UpsertFile { path, metadata } => match encode_metadata(metadata) {
                Some(value) => Some(
                    raw(Table::FileIndex, RawKind::Put, path_key(path.as_str()), value),
                ),
                None => None,
            },
            StoreRequest::GetFileMetadata { path } => Some(
                raw(Table::FileIndex, RawKind::Get, path_key(path.as_str()), Vec::new()),
            ),
            StoreRequest::RemoveFileFromIndex { path } => Some(
                raw(Table::FileIndex, RawKind::Delete, path_key(path.as_str()), Vec::new()),
            ),
            StoreRequest::SetCasRefcount { hash, count } => Some(
                raw(Table::CasIndex, RawKind::Put, hash_key(hash), encode_count(*count)),
            ),
            StoreRequest::GetCasRefcount { hash } => Some(
                raw(Table::CasIndex, RawKind::Get, hash_key(hash), Vec::new()),
            ),
            StoreRequest::RemoveCasRefcount { hash } => Some(
                raw(Table::CasIndex, RawKind::Delete, hash_key(hash), Vec::new()),
            ),
            StoreRequest::MarkInodeVaulted { inode } => {
                let mut mark: Vec<u8> = Vec::new();
                mark.push(1u8);
                assert(mark@ =~= mark_bytes());
                Some(raw(Table::VaultedInodes, RawKind::Put, inode_key(*inode), mark))
            },
            StoreRequest::UnmarkInodeVaulted { inode } => Some(
                raw(Table::VaultedInodes, RawKind::Delete, inode_key(*inode), Vec::new()),
            ),
            StoreRequest::IsInodeVaulted { inode } => Some(
                raw(Table::VaultedInodes, RawKind::Get, inode_key(*inode), Vec::new()),
            ),
        }
    }

    /// The answer to this request that the raw reply amounts to.
    pub fn decode(&self, raw: &RawReply) -> (reply: StoreReply)
        ensures
            reply_of(self@, raw@, reply),
    {
        match self {
            StoreRequest::GetFileMetadata { .. } => match raw {
                RawReply::Missing => StoreReply::Metadata(None),
                RawReply::Found(bytes) => match decode_metadata(bytes.as_slice()) {
                    Some(metadata) => StoreReply::Metadata(Some(metadata)),
                    None => StoreReply::Failed,
                },
                _ => StoreReply::Failed,
            },
            StoreRequest::GetCasRefcount { .. } => match raw {
                RawReply::Missing => StoreReply::Count(0),
                RawReply::Found(bytes) => match decode_count(bytes.as_slice()) {
                    Some(count) => StoreReply::Count(count),
                    None => StoreReply::Failed,
                },
                _ => StoreReply::Failed,
            },
            StoreRequest::IsInodeVaulted { .. } => match raw {
                RawReply::Missing => StoreReply::Flag(false),
                RawReply::Found(_) => StoreReply::Flag(true),
                _ => StoreReply::Failed,
            },
            _ => match raw {
                RawReply::Done => StoreReply::Done,
                _ => StoreReply::Failed,
            },
        }
    }
}

impl Table {
    /// The name under which the key-value store keeps the table.
    pub fn name(&self) -> (name: &'static str)
        ensures
            name@ == match *self {
                Table::FileIndex => "file_index"@,
                Table::CasIndex => "cas_index"@,
                Table::VaultedInodes => "vaulted_inodes"@,
            },
    {
        match self {
            Table::FileIndex => "file_index",
            Table::CasIndex => "cas_index",
            Table::VaultedInodes => "vaulted_inodes",
        }
    }
}

/// How a run may use the store.
#[derive(Debug, Clone, Copy, PartialEq, Eq, Structural)]
pub enum StoreMode {
    /// The store is read and written.
    ReadWrite,
    /// The store is there and is only read: a dry run writes nothing.
    ReadOnly,
    /// There is no store, and none is made: a dry run on a fresh home.
    Absent,
}

/// What a raw operation is answered with before the key-value store is
/// asked, if it is not to be asked. A store that is only read takes no
/// write: the write counts as done and nothing is committed. A store that
/// is not there holds nothing and keeps nothing.
pub open spec fn answered_without_store(mode: StoreMode, kind: RawKind) -> Option<RawReplyView> {
    match mode {
        StoreMode::ReadWrite => None,
        StoreMode::ReadOnly => if kind is Get {
            None
        } else {
            Some(RawReplyView::Done)
        },
        StoreMode::Absent => if kind is Get {
            Some(RawReplyView::Missing)
        } else {
            Some(RawReplyView::Done)
        },
    }
}

/// The answer to a raw operation that the key-value store is not to be
/// asked for, or `None` where it is to be asked.
pub fn answer_without_store(mode: StoreMode, request: &RawRequest) -> (reply: Option<RawReply>)
    ensures
        match reply {
            Some(r) => answered_without_store(mode, request.kind) == Some(r@),
            None => answered_without_store(mode, request.kind).is_none(),
        },
{
    let reads = match request.kind {
        RawKind::Get => true,
        _ => false,
    };
    match mode {
        StoreMode::ReadWrite => None,
        StoreMode::ReadOnly => if reads {
            None
        } else {
            Some(RawReply::Done)
        },
        StoreMode::Absent => if reads {
            Some(RawReply::Missing)
        } else {
            Some(RawReply::Done)
        },
    }
}

} // verus!
