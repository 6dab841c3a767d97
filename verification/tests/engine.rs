//! The runs, driven against a file tree and a state store that live in
//! memory.

use std::collections::{BTreeMap, BTreeSet};

use imprint::dedupe::{compare_files, replace_with_link, restore_file, LinkError, LinkType};
use imprint::hasher::{full_hash, sparse_hash};
use imprint::orchestrator::{dedupe_groups, DedupeOptions};
use imprint::pipeline::{
    duplicate_count, index_file, refcount_requests, DuplicateGroup, HashGroups, Reply, Report,
    Request,
};
use imprint::requests::{Extent, FileStat, FsReply, FsRequest, Step};
use imprint::restore::{restore_pipeline, RestoreSummary};
use imprint::scanner::{stream_scan, Arrived, Dispatch, SizeIndex, Walk, WalkEntry, WalkError};
use imprint::state::{
    answer_without_store, RawKind, RawReply, StoreMode, StoreReply, StoreRequest, Table,
};
use imprint::types::hash_to_hex;
use imprint::vault::{ensure_in_vault, remove_from_vault, shard_path, vault_root};

#[derive(Clone, Debug, PartialEq)]
struct Node {
    content: Vec<u8>,
    mode: u32,
    mtime: (i64, u32),
    xattrs: Vec<(Vec<u8>, Vec<u8>)>,
}

struct MemTree {
    names: BTreeMap<String, u64>,
    nodes: BTreeMap<u64, Node>,
    dirs: BTreeSet<String>,
    next: u64,
    cow: bool,
    clock: i64,
    writes: usize,
    unreadable: BTreeSet<String>,
}

fn parent_of(path: &str) -> String {
    match path.rfind('/') {
        Some(0) | None => String::from("/"),
        Some(i) => path[..i].to_string(),
    }
}

impl MemTree {
    fn new(cow: bool) -> MemTree {
        MemTree {
            names: BTreeMap::new(),
            nodes: BTreeMap::new(),
            dirs: BTreeSet::new(),
            next: 100,
            cow,
            clock: 2_000_000_000,
            writes: 0,
            unreadable: BTreeSet::new(),
        }
    }

    fn mkdirs(&mut self, path: &str) {
        let mut dir = path.to_string();
        while dir != "/" {
            self.dirs.insert(dir.clone());
            dir = parent_of(&dir);
        }
    }

    fn create(&mut self, path: &str, content: &[u8], mode: u32) -> u64 {
        self.clock += 1;
        let number = self.next;
        self.next += 1;
        self.nodes.insert(
            number,
            Node { content: content.to_vec(), mode, mtime: (self.clock, 0), xattrs: Vec::new() },
        );
        self.names.insert(path.to_string(), number);
        number
    }

    fn write(&mut self, path: &str, content: &[u8]) {
        let dir = parent_of(path);
        self.mkdirs(&dir);
        self.create(path, content, 0o644);
    }

    fn node(&self, path: &str) -> &Node {
        &self.nodes[&self.names[path]]
    }

    fn node_mut(&mut self, path: &str) -> Option<&mut Node> {
        let number = *self.names.get(path)?;
        self.nodes.get_mut(&number)
    }

    fn files_under(&self, dir: &str) -> Vec<String> {
        let prefix = format!("{}/", dir);
        self.names.keys().filter(|p| p.starts_with(&prefix)).cloned().collect()
    }

    fn walk(&self, dir: &str) -> Walk {
        Walk { root_readable: self.dirs.contains(dir), entries: self.entries(dir) }
    }

    fn entries(&self, dir: &str) -> Vec<WalkEntry> {
        let prefix = format!("{}/", dir);
        let mut entries = Vec::new();
        for d in self.dirs.iter().filter(|d| d.starts_with(&prefix)) {
            entries.push(WalkEntry { path: d.clone(), is_file: false, size: Some(0) });
        }
        for path in self.files_under(dir) {
            let size = self.node(&path).content.len() as u64;
            entries.push(WalkEntry { path, is_file: true, size: Some(size) });
        }
        entries
    }

    fn perform(&mut self, request: FsRequest) -> FsReply {
        let done = |ok: bool| if ok { FsReply::Done } else { FsReply::Failed };
        match request {
            FsRequest::Exists { path } => {
                FsReply::Flag(self.names.contains_key(&path) || self.dirs.contains(&path))
            }
            FsRequest::Stat { path } => match self.names.get(&path) {
                Some(_) if self.unreadable.contains(&path) => FsReply::Failed,
                Some(number) => {
                    let node = &self.nodes[number];
                    FsReply::Stat(FileStat {
                        size: node.content.len() as u64,
                        inode: *number,
                        mode: node.mode,
                        mtime_seconds: node.mtime.0,
                        mtime_nanos: node.mtime.1,
                    })
                }
                None => FsReply::Failed,
            },
            FsRequest::ReadAt { path, offset, len } => match self.names.get(&path) {
                Some(number) => {
                    let content = &self.nodes[number].content;
                    let start = (offset as usize).min(content.len());
                    let end = (start + len).min(content.len());
                    FsReply::Bytes(content[start..end].to_vec())
                }
                None => FsReply::Failed,
            },
            FsRequest::QueryExtents { .. } => FsReply::Failed,
            FsRequest::RemoveFile { path } => {
                self.writes += 1;
                done(self.names.remove(&path).is_some())
            }
            FsRequest::Rename { from, to } => {
                self.writes += 1;
                match self.names.remove(&from) {
                    Some(number) => {
                        self.names.insert(to, number);
                        FsReply::Done
                    }
                    None => FsReply::Failed,
                }
            }
            FsRequest::CopyFile { from, to } | FsRequest::CopyBytes { from, to } => {
                self.writes += 1;
                match self.names.get(&from) {
                    Some(number) => {
                        let node = self.nodes[number].clone();
                        self.create(&to, &node.content, 0o644);
                        FsReply::Done
                    }
                    None => FsReply::Failed,
                }
            }
            FsRequest::SyncFile { path } => done(self.names.contains_key(&path)),
            FsRequest::CreateDirAll { path } => {
                self.writes += 1;
                self.mkdirs(&path);
                FsReply::Done
            }
            FsRequest::IsDirEmpty { path } => {
                let prefix = format!("{}/", path);
                let used = self.names.keys().any(|p| p.starts_with(&prefix))
                    || self.dirs.iter().any(|d| d.starts_with(&prefix));
                FsReply::Flag(self.dirs.contains(&path) && !used)
            }
            FsRequest::RemoveDir { path } => {
                self.writes += 1;
                done(self.dirs.remove(&path))
            }
            FsRequest::Reflink { from, to } => {
                self.writes += 1;
                if !self.cow || self.names.contains_key(&to) {
                    return FsReply::Failed;
                }
                match self.names.get(&from) {
                    Some(number) => {
                        let content = self.nodes[number].content.clone();
                        self.create(&to, &content, 0o644);
                        FsReply::Done
                    }
                    None => FsReply::Failed,
                }
            }
            FsRequest::HardLink { from, to } => {
                self.writes += 1;
                if self.names.contains_key(&to) {
                    return FsReply::Failed;
                }
                match self.names.get(&from) {
                    Some(number) => {
                        let number = *number;
                        self.names.insert(to, number);
                        FsReply::Done
                    }
                    None => FsReply::Failed,
                }
            }
            FsRequest::ListXattrs { path } => match self.names.get(&path) {
                Some(number) => {
                    FsReply::Names(self.nodes[number].xattrs.iter().map(|x| x.0.clone()).collect())
                }
                None => FsReply::Failed,
            },
            FsRequest::GetXattr { path, name } => match self.names.get(&path) {
                Some(number) => FsReply::Value(
                    self.nodes[number].xattrs.iter().find(|x| x.0 == name).map(|x| x.1.clone()),
                ),
                None => FsReply::Failed,
            },
            FsRequest::SetXattr { path, name, value } => {
                self.writes += 1;
                match self.node_mut(&path) {
                    Some(node) => {
                        match node.xattrs.iter_mut().find(|x| x.0 == name) {
                            Some(attr) => attr.1 = value,
                            None => node.xattrs.push((name, value)),
                        }
                        FsReply::Done
                    }
                    None => FsReply::Failed,
                }
            }
            FsRequest::SetPermissions { path, mode } => {
                self.writes += 1;
                match self.node_mut(&path) {
                    Some(node) => {
                        node.mode = mode;
                        FsReply::Done
                    }
                    None => FsReply::Failed,
                }
            }
            FsRequest::SetMtime { path, seconds, nanos } => {
                self.writes += 1;
                match self.node_mut(&path) {
                    Some(node) => {
                        node.mtime = (seconds, nanos);
                        FsReply::Done
                    }
                    None => FsReply::Failed,
                }
            }
        }
    }
}

/// A key-value store in memory, behind the library's raw requests.
struct MemStore {
    tables: BTreeMap<(u8, Vec<u8>), Vec<u8>>,
    requests: usize,
    mode: StoreMode,
}

fn table_number(table: Table) -> u8 {
    match table {
        Table::FileIndex => 0,
        Table::CasIndex => 1,
        Table::VaultedInodes => 2,
    }
}

impl MemStore {
    fn new() -> MemStore {
        MemStore { tables: BTreeMap::new(), requests: 0, mode: StoreMode::ReadWrite }
    }

    fn perform(&mut self, request: &StoreRequest) -> StoreReply {
        self.requests += 1;
        let raw = match request.encode() {
            Some(raw) => raw,
            None => return StoreReply::Failed,
        };
        if let Some(reply) = answer_without_store(self.mode, &raw) {
            return request.decode(&reply);
        }
        let key = (table_number(raw.table), raw.key);
        let reply = match raw.kind {
            RawKind::Put => {
                self.tables.insert(key, raw.value);
                RawReply::Done
            }
            RawKind::Delete => {
                self.tables.remove(&key);
                RawReply::Done
            }
            RawKind::Get => match self.tables.get(&key) {
                Some(value) => RawReply::Found(value.clone()),
                None => RawReply::Missing,
            },
        };
        request.decode(&reply)
    }

    fn count(&mut self, hash: &[u8; 32]) -> u64 {
        match self.perform(&StoreRequest::GetCasRefcount { hash: *hash }) {
            StoreReply::Count(count) => count,
            other => panic!("count: {:?}", other),
        }
    }

    fn is_vaulted(&mut self, inode: u64) -> bool {
        matches!(self.perform(&StoreRequest::IsInodeVaulted { inode }), StoreReply::Flag(true))
    }
}

struct World {
    tree: MemTree,
    store: MemStore,
    told: Vec<Report>,
}

impl World {
    fn new(cow: bool) -> World {
        World { tree: MemTree::new(cow), store: MemStore::new(), told: Vec::new() }
    }

    fn perform(&mut self, request: Request) -> Reply {
        match request {
            Request::Fs(request) => Reply::Fs(self.tree.perform(request)),
            Request::Store(request) => Reply::Store(self.store.perform(&request)),
            Request::Tell(report) => {
                self.told.push(report);
                Reply::Told
            }
        }
    }
}

fn run_fs<J, T>(
    start: Step<J, FsRequest, T>,
    tree: &mut MemTree,
    resume: impl Fn(J, FsReply) -> Step<J, FsRequest, T>,
) -> T {
    let mut step = start;
    loop {
        match step {
            Step::Finish(result) => return result,
            Step::Ask(job, request) => {
                let reply = tree.perform(request);
                step = resume(job, reply);
            }
        }
    }
}

fn run<J, T>(
    start: Step<J, Request, T>,
    world: &mut World,
    resume: impl Fn(J, Reply) -> Step<J, Request, T>,
) -> T {
    let mut step = start;
    loop {
        match step {
            Step::Finish(result) => return result,
            Step::Ask(job, request) => {
                let reply = world.perform(request);
                step = resume(job, reply);
            }
        }
    }
}

const HOME: &str = "/home/u";

fn root() -> String {
    vault_root(HOME)
}

/// The scan: walk, bucket by size, index what is dispatched, group by
/// digest, write the counts.
fn scan(world: &mut World, dir: &str) -> Vec<DuplicateGroup> {
    let walk = world.tree.walk(dir);
    let sizes: BTreeMap<String, u64> =
        walk.entries.iter().map(|e| (e.path.clone(), e.size.unwrap())).collect();
    let mut index = SizeIndex::new();
    let mut jobs: Vec<Arrived> = Vec::new();
    for path in stream_scan(&walk).expect("the root can be read") {
        let size = sizes[&path];
        let (next, dispatch) = index.insert(path, size);
        index = next;
        match dispatch {
            Dispatch::Hold => {}
            Dispatch::Pair(first, second) => {
                jobs.push(first);
                jobs.push(second);
            }
            Dispatch::One(file) => jobs.push(file),
        }
    }
    // The workers finish in an order of their own: here, the last job first.
    jobs.reverse();
    let mut groups = HashGroups::new();
    for file in jobs {
        if let Some(hash) = run(index_file(&file.path), world, |job, reply| job.resume(reply)) {
            groups = groups.record(hash, file);
        }
    }
    let groups = groups.into_groups();
    for request in refcount_requests(&groups) {
        assert!(matches!(world.store.perform(&request), StoreReply::Done));
    }
    groups
}

fn options(paranoid: bool, dry_run: bool, allow_unsafe_hardlinks: bool) -> DedupeOptions {
    DedupeOptions { paranoid, dry_run, allow_unsafe_hardlinks }
}

fn dedupe(world: &mut World, dir: &str, options: DedupeOptions) -> usize {
    let groups = scan(world, dir);
    let duplicates = duplicate_count(&groups);
    let result =
        run(dedupe_groups(&root(), groups, options), world, |job, reply| job.resume(reply));
    assert_eq!(result, Ok(()));
    duplicates
}

fn restore(world: &mut World, dir: &str, dry_run: bool) -> RestoreSummary {
    let walk = world.tree.walk(dir);
    let start = restore_pipeline(&root(), walk, dry_run).expect("the root can be read");
    run(start, world, |job, reply| job.resume(reply))
}

fn vault_files(world: &World) -> Vec<String> {
    world.tree.files_under(&root())
}

#[test]
fn test_happy_path_dedupe_and_restore() {
    let mut world = World::new(true);
    for i in 0..5 {
        world.tree.write(&format!("/home/u/data/unique_{}.txt", i), &vec![42u8 + i as u8; 1024]);
    }
    for i in 0..5 {
        world.tree.write(&format!("/home/u/data/dup_{}.txt", i), b"identical content");
    }
    assert_eq!(dedupe(&mut world, "/home/u/data", options(false, false, false)), 1);

    assert_eq!(vault_files(&world).len(), 1, "one master after dedupe");
    assert_eq!(world.tree.files_under("/home/u/data").len(), 10);
    let master = vault_files(&world)[0].clone();
    assert_eq!(world.tree.node(&master).content, b"identical content");
    let hash = full_digest(b"identical content");
    assert_eq!(master, shard_path(&root(), &hash));
    assert_eq!(world.store.count(&hash), 5);
    for i in 0..5 {
        assert_eq!(
            world.tree.node(&format!("/home/u/data/dup_{}.txt", i)).content,
            b"identical content"
        );
    }

    let summary = restore(&mut world, "/home/u/data", false);
    assert_eq!(summary, RestoreSummary { restored: 5, bytes: 5 * 17 });
    assert_eq!(world.tree.node("/home/u/data/dup_0.txt").content, b"identical content");
    assert!(vault_files(&world).is_empty(), "vault is empty after restore");
    assert_eq!(world.store.count(&hash), 0);
    assert_eq!(world.tree.files_under("/home/u/data").len(), 10);
    assert!(!world.tree.dirs.contains(&parent_of(&master)), "empty shards are removed");
}

fn full_digest(content: &[u8]) -> [u8; 32] {
    let mut tree = MemTree::new(true);
    tree.write("/f", content);
    run_fs(full_hash("/f"), &mut tree, |job, reply| job.resume(reply)).unwrap()
}

fn sparse_digest(content: &[u8]) -> [u8; 32] {
    let mut tree = MemTree::new(true);
    tree.write("/f", content);
    run_fs(sparse_hash("/f", content.len() as u64), &mut tree, |job, reply| job.resume(reply))
        .unwrap()
}

#[test]
fn test_zero_byte_files() {
    let mut world = World::new(true);
    for i in 0..5 {
        world.tree.write(&format!("/home/u/data/empty_{}.txt", i), b"");
    }
    assert_eq!(dedupe(&mut world, "/home/u/data", options(false, false, false)), 1);
    let files = world.tree.files_under("/home/u/data");
    assert_eq!(files.len(), 5, "all 5 empty files still exist");
    for file in files {
        assert!(world.tree.node(&file).content.is_empty());
    }
}

#[test]
fn test_deeply_nested_directories() {
    let mut world = World::new(true);
    let mut current = String::from("/home/u/data");
    for i in 0..20 {
        current = format!("{}/level_{}", current, i);
    }
    for i in 0..3 {
        world.tree.write(&format!("{}/dup_{}.txt", current, i), b"nested content");
    }
    assert_eq!(dedupe(&mut world, "/home/u/data", options(false, false, false)), 1);
    for i in 0..3 {
        let path = format!("{}/dup_{}.txt", current, i);
        assert_eq!(world.tree.node(&path).content, b"nested content");
    }
    assert_eq!(vault_files(&world).len(), 1);
    assert_eq!(world.store.count(&full_digest(b"nested content")), 3);
}

#[test]
fn test_massive_and_sparse_files() {
    let mut world = World::new(false);
    let file1 = vec![0xAAu8; 15 * 1024];
    let mut file2 = vec![0xAAu8; 15 * 1024];
    file2[7 * 1024] = 0xBB;
    world.tree.write("/home/u/data/large1.bin", &file1);
    world.tree.write("/home/u/data/large1_dup.bin", &file1);
    world.tree.write("/home/u/data/large2.bin", &file2);
    world.tree.write("/home/u/data/large2_dup.bin", &file2);
    assert_eq!(dedupe(&mut world, "/home/u/data", options(false, false, true)), 2);
    assert_eq!(vault_files(&world).len(), 2, "a difference in the middle makes two masters");
    assert_eq!(world.tree.node("/home/u/data/large2_dup.bin").content, file2);
    assert_eq!(world.tree.node("/home/u/data/large1_dup.bin").content, file1);
    assert_ne!(sparse_digest(&file1), sparse_digest(&file2));
}

#[test]
fn test_metadata_integrity() {
    let mut world = World::new(true);
    world.tree.write("/home/u/data/master.txt", b"test content");
    world.tree.write("/home/u/data/duplicate.txt", b"test content");
    {
        let node = world.tree.node_mut("/home/u/data/duplicate.txt").unwrap();
        node.mode = 0o444;
        node.mtime = (1000000000, 0);
        node.xattrs.push((b"user.test_attr".to_vec(), b"test_value".to_vec()));
    }
    {
        let node = world.tree.node_mut("/home/u/data/master.txt").unwrap();
        node.mode = 0o400;
        node.mtime = (1000000001, 7);
        node.xattrs.push((b"user.other".to_vec(), b"x".to_vec()));
    }
    assert_eq!(dedupe(&mut world, "/home/u/data", options(false, false, false)), 1);
    let node = world.tree.node("/home/u/data/duplicate.txt");
    assert_eq!(node.mtime, (1000000000, 0), "modification time is preserved");
    assert_eq!(node.mode & 0o777, 0o444, "permissions are preserved");
    assert_eq!(node.xattrs, vec![(b"user.test_attr".to_vec(), b"test_value".to_vec())]);
    assert_eq!(node.content, b"test content");
    // The other file, whichever of the two became the master, keeps its own.
    let node = world.tree.node("/home/u/data/master.txt");
    assert_eq!(node.mtime, (1000000001, 7));
    assert_eq!(node.mode & 0o777, 0o400);
    assert_eq!(node.xattrs, vec![(b"user.other".to_vec(), b"x".to_vec())]);
    assert_eq!(node.content, b"test content");
    let master = world.tree.names[&vault_files(&world)[0]];
    assert_ne!(world.tree.names["/home/u/data/master.txt"], master);
    assert_ne!(world.tree.names["/home/u/data/duplicate.txt"], master, "a clone has its own inode");
}

#[test]
fn test_hardlink_fallback() {
    let mut world = World::new(false);
    world.tree.write("/home/u/data/file1.txt", b"hardlink test");
    world.tree.write("/home/u/data/file2.txt", b"hardlink test");
    assert_eq!(dedupe(&mut world, "/home/u/data", options(false, false, true)), 1);
    let inode1 = world.tree.names["/home/u/data/file1.txt"];
    let inode2 = world.tree.names["/home/u/data/file2.txt"];
    assert_eq!(inode1, inode2, "both files share an inode");
    assert_eq!(world.tree.names[&vault_files(&world)[0]], inode1);
    assert!(world.store.is_vaulted(inode1));
    assert_eq!(world.tree.node("/home/u/data/file2.txt").content, b"hardlink test");
    let linked: Vec<_> = world
        .told
        .iter()
        .filter(|r| matches!(r, Report::Linked { kind: LinkType::HardLink, verified: false, .. }))
        .collect();
    assert_eq!(linked.len(), 2);

    // A second run passes the hard links over: their inode is marked.
    let groups = scan(&mut world, "/home/u/data");
    assert!(groups.is_empty());

    // Restoring gives each file an inode of its own again.
    let summary = restore(&mut world, "/home/u/data", false);
    assert_eq!(summary.restored, 2);
    assert_ne!(
        world.tree.names["/home/u/data/file1.txt"],
        world.tree.names["/home/u/data/file2.txt"]
    );
    assert!(vault_files(&world).is_empty());
    assert!(!world.store.is_vaulted(inode1));
}

#[test]
fn test_reflink_refusal_rolls_master_back() {
    let mut world = World::new(false);
    world.tree.write("/home/u/data/file1.txt", b"same");
    world.tree.write("/home/u/data/file2.txt", b"same");
    let before: Vec<(String, u64)> =
        world.tree.names.iter().map(|(p, n)| (p.clone(), *n)).collect();
    assert_eq!(dedupe(&mut world, "/home/u/data", options(false, false, false)), 1);
    let after: Vec<(String, u64)> =
        world.tree.names.iter().map(|(p, n)| (p.clone(), *n)).collect();
    assert_eq!(before, after, "the tree is as it was, the master is back");
    assert!(vault_files(&world).is_empty(), "no master is left in the vault");
    let warnings =
        world.told.iter().filter(|r| matches!(r, Report::ReflinkUnsupported)).count();
    assert_eq!(warnings, 1);
    assert!(world.told.iter().any(
        |r| matches!(r, Report::Skipped { path } if path == "/home/u/data/file1.txt")
    ));
}

#[test]
fn reflink_warning_is_told_once_in_a_run() {
    let mut world = World::new(false);
    for (name, content) in [("a1", "aaa"), ("a2", "aaa"), ("b1", "bbbb"), ("b2", "bbbb")] {
        world.tree.write(&format!("/home/u/data/{}", name), content.as_bytes());
    }
    assert_eq!(dedupe(&mut world, "/home/u/data", options(false, false, false)), 2);
    let warnings =
        world.told.iter().filter(|r| matches!(r, Report::ReflinkUnsupported)).count();
    let skipped = world.told.iter().filter(|r| matches!(r, Report::Skipped { .. })).count();
    assert_eq!(warnings, 1);
    assert_eq!(skipped, 2);
    assert!(vault_files(&world).is_empty());
}

#[test]
fn test_paranoid_mode_catches_bit_rot() {
    let mut world = World::new(true);
    world.tree.write("/home/u/data/file1.txt", b"content with more than ten bytes");
    world.tree.write("/home/u/data/file2.txt", b"content with more than ten bytes");
    assert_eq!(dedupe(&mut world, "/home/u/data", options(false, false, false)), 1);
    let master = vault_files(&world)[0].clone();
    world.tree.node_mut(&master).unwrap().content[10] = 0xFF;
    world.told.clear();

    assert_eq!(dedupe(&mut world, "/home/u/data", options(true, false, false)), 1);
    let rotten: Vec<&Report> =
        world.told.iter().filter(|r| matches!(r, Report::BitRot { .. })).collect();
    assert!(!rotten.is_empty(), "the difference is told: {:?}", world.told);
    assert_eq!(
        world.tree.node("/home/u/data/file2.txt").content,
        b"content with more than ten bytes",
        "a file that differs from the master is not replaced"
    );
}

#[test]
fn paranoid_run_tells_verified_links() {
    let mut world = World::new(true);
    world.tree.write("/home/u/data/a", b"xyz");
    world.tree.write("/home/u/data/b", b"xyz");
    assert_eq!(dedupe(&mut world, "/home/u/data", options(true, false, false)), 1);
    let verified = world
        .told
        .iter()
        .filter(|r| matches!(r, Report::Linked { kind: LinkType::Reflink, verified: true, .. }))
        .count();
    let unverified = world
        .told
        .iter()
        .filter(|r| matches!(r, Report::Linked { kind: LinkType::Reflink, verified: false, .. }))
        .count();
    // The master's old path is gone when it is looked for, so only the
    // second file is compared.
    assert_eq!((verified, unverified), (1, 1));
}

#[test]
fn test_scan_no_modifications() {
    let mut world = World::new(true);
    world.tree.write("/home/u/data/file1.txt", b"test");
    world.tree.write("/home/u/data/file2.txt", b"test");
    let before = world.tree.node("/home/u/data/file1.txt").clone();
    let groups = scan(&mut world, "/home/u/data");
    assert_eq!(duplicate_count(&groups), 1);
    assert_eq!(world.tree.node("/home/u/data/file1.txt"), &before);
    assert_eq!(world.tree.writes, 0, "a scan asks for no change of the tree");
    assert_eq!(world.store.count(&full_digest(b"test")), 2);
    match world
        .store
        .perform(&StoreRequest::GetFileMetadata { path: String::from("/home/u/data/file1.txt") })
    {
        StoreReply::Metadata(Some(metadata)) => {
            assert_eq!(metadata.size, 4);
            assert_eq!(metadata.modified, before.mtime.0 as u64);
            assert_eq!(metadata.hash, full_digest(b"test"));
        }
        other => panic!("no record: {:?}", other),
    }
}

#[test]
fn test_dry_run_no_changes() {
    let mut world = World::new(true);
    world.tree.write("/home/u/data/file1.txt", b"test");
    world.tree.write("/home/u/data/file2.txt", b"test");
    let inode_before = world.tree.names["/home/u/data/file1.txt"];
    let groups = vec![DuplicateGroup {
        hash: full_digest(b"test"),
        paths: vec![
            String::from("/home/u/data/file1.txt"),
            String::from("/home/u/data/file2.txt"),
        ],
    }];
    let result = run(dedupe_groups(&root(), groups, options(true, true, false)), &mut world, |j, r| {
        j.resume(r)
    });
    assert_eq!(result, Ok(()));
    assert_eq!(world.tree.names["/home/u/data/file1.txt"], inode_before);
    assert_eq!(world.tree.writes, 0);
    assert_eq!(world.store.requests, 0, "a dry run asks nothing of the store");
    assert!(!world.tree.dirs.contains("/home/u/.imprint"));
    let vault_path = shard_path(&root(), &full_digest(b"test"));
    let told: Vec<String> = world.told.iter().map(|r| format!("{:?}", r)).collect();
    assert_eq!(
        told,
        vec![
            format!(
                "WouldMoveMaster {{ path: \"/home/u/data/file1.txt\", vault_path: {:?} }}",
                vault_path
            ),
            String::from("SkippingVerification"),
            format!(
                "WouldDedupe {{ path: \"/home/u/data/file1.txt\", vault_path: {:?} }}",
                vault_path
            ),
            format!(
                "WouldDedupe {{ path: \"/home/u/data/file2.txt\", vault_path: {:?} }}",
                vault_path
            ),
            format!("WouldUpdateState {{ hash: {:?} }}", full_digest(b"test")),
        ]
    );
}

#[test]
fn dry_run_of_restore_changes_nothing() {
    let mut world = World::new(true);
    world.tree.write("/home/u/data/a", b"dup");
    world.tree.write("/home/u/data/b", b"dup");
    assert_eq!(dedupe(&mut world, "/home/u/data", options(false, false, false)), 1);
    let names = world.tree.names.clone();
    let tables = world.store.tables.clone();
    let writes = world.tree.writes;
    world.told.clear();
    let summary = restore(&mut world, "/home/u/data", true);
    assert_eq!(summary, RestoreSummary { restored: 2, bytes: 6 });
    assert_eq!(world.tree.names, names);
    assert_eq!(world.store.tables, tables);
    assert_eq!(world.tree.writes, writes);
    assert_eq!(world.told.iter().filter(|r| matches!(r, Report::WouldRestore { .. })).count(), 2);
    assert_eq!(world.told.iter().filter(|r| matches!(r, Report::WouldDecrement { .. })).count(), 2);
}

#[test]
fn temp_names_are_never_hashed_or_linked() {
    let mut world = World::new(true);
    world.tree.write("/home/u/data/x.imprint_tmp", b"same bytes");
    world.tree.write("/home/u/data/y.txt", b"same bytes");
    world.tree.write("/home/u/data/z.txt", b"same bytes");
    let inode = world.tree.names["/home/u/data/x.imprint_tmp"];
    let groups = scan(&mut world, "/home/u/data");
    assert_eq!(groups.len(), 1);
    assert_eq!(groups[0].paths, vec!["/home/u/data/y.txt", "/home/u/data/z.txt"]);
    let result = run(dedupe_groups(&root(), groups, options(false, false, false)), &mut world, |j, r| {
        j.resume(r)
    });
    assert_eq!(result, Ok(()));
    assert_eq!(world.tree.names["/home/u/data/x.imprint_tmp"], inode);
    assert!(world.told.iter().all(|r| !format!("{:?}", r).contains("x.imprint_tmp")));
    assert_eq!(world.store.count(&full_digest(b"same bytes")), 2);
}

#[test]
fn same_path_is_no_link_and_no_request() {
    match replace_with_link("/a/b", "/a/b", true) {
        Step::Finish(result) => assert_eq!(result, Ok(None)),
        Step::Ask(..) => panic!("a request was made"),
    }
    match replace_with_link("/a/b", "/a/b", false) {
        Step::Finish(result) => assert_eq!(result, Ok(None)),
        Step::Ask(..) => panic!("a request was made"),
    }
}

#[test]
fn replace_with_link_makes_clone_and_keeps_metadata() {
    let mut tree = MemTree::new(true);
    tree.write("/v/master", b"bytes");
    tree.write("/d/target", b"bytes");
    tree.write("/d/target.imprint_tmp", b"stale");
    {
        let node = tree.node_mut("/d/target").unwrap();
        node.mode = 0o600;
        node.mtime = (77, 5);
        node.xattrs = vec![(b"user.a".to_vec(), b"1".to_vec()), (b"user.b".to_vec(), b"2".to_vec())];
    }
    let old = tree.node("/d/target").clone();
    let result = run_fs(replace_with_link("/v/master", "/d/target", false), &mut tree, |j, r| {
        j.resume(r)
    });
    assert_eq!(result, Ok(Some(LinkType::Reflink)));
    assert_eq!(tree.node("/d/target"), &old);
    assert_ne!(tree.names["/d/target"], tree.names["/v/master"]);
    assert!(!tree.names.contains_key("/d/target.imprint_tmp"));
    assert_eq!(tree.names.len(), 2);
}

#[test]
fn replace_with_link_refuses_without_clones() {
    let mut tree = MemTree::new(false);
    tree.write("/v/master", b"bytes");
    tree.write("/d/target", b"bytes");
    let names = tree.names.clone();
    let result = run_fs(replace_with_link("/v/master", "/d/target", false), &mut tree, |j, r| {
        j.resume(r)
    });
    assert_eq!(result, Err(LinkError::ReflinkUnsupported));
    assert_eq!(tree.names, names);
    let result = run_fs(replace_with_link("/v/master", "/d/target", true), &mut tree, |j, r| {
        j.resume(r)
    });
    assert_eq!(result, Ok(Some(LinkType::HardLink)));
    assert_eq!(tree.names["/d/target"], tree.names["/v/master"]);
}

#[test]
fn replace_with_link_fails_on_unreadable_target() {
    let mut tree = MemTree::new(true);
    tree.write("/v/master", b"bytes");
    tree.write("/d/target", b"bytes");
    tree.unreadable.insert(String::from("/d/target"));
    let result = run_fs(replace_with_link("/v/master", "/d/target", true), &mut tree, |j, r| {
        j.resume(r)
    });
    assert_eq!(result, Err(LinkError::ReadTargetMetadata));
    assert_eq!(tree.writes, 0);
}

#[test]
fn replace_with_link_fills_a_vacant_path() {
    let mut tree = MemTree::new(true);
    tree.write("/v/master", b"bytes");
    tree.node_mut("/v/master").unwrap().mode = 0o751;
    tree.node_mut("/v/master").unwrap().xattrs = vec![(b"user.k".to_vec(), b"v".to_vec())];
    let result = run_fs(replace_with_link("/v/master", "/d/gone", false), &mut tree, |j, r| {
        j.resume(r)
    });
    assert_eq!(result, Ok(Some(LinkType::Reflink)));
    assert_eq!(tree.node("/d/gone"), tree.node("/v/master"));
    assert_ne!(tree.names["/d/gone"], tree.names["/v/master"]);
    assert_eq!(tree.names.len(), 2);
    let result = run_fs(replace_with_link("/v/none", "/d/void", false), &mut tree, |j, r| {
        j.resume(r)
    });
    assert_eq!(result, Err(LinkError::ReadTargetMetadata));

    let mut tree = MemTree::new(false);
    tree.write("/v/master", b"bytes");
    let result = run_fs(replace_with_link("/v/master", "/d/gone", true), &mut tree, |j, r| {
        j.resume(r)
    });
    assert_eq!(result, Ok(Some(LinkType::HardLink)));
    assert_eq!(tree.names["/d/gone"], tree.names["/v/master"]);
    let result = run_fs(replace_with_link("/v/master", "/d/other", false), &mut tree, |j, r| {
        j.resume(r)
    });
    assert_eq!(result, Err(LinkError::ReflinkUnsupported));
    assert!(!tree.names.contains_key("/d/other"));
}

#[test]
fn hard_link_failure_cleans_up_and_reports() {
    let mut tree = MemTree::new(false);
    tree.write("/d/target", b"bytes");
    let result = run_fs(replace_with_link("/v/missing", "/d/target", true), &mut tree, |j, r| {
        j.resume(r)
    });
    assert_eq!(result, Err(LinkError::CreateHardLink));
    assert_eq!(tree.names.len(), 1);
    assert_eq!(tree.node("/d/target").content, b"bytes");
}

#[test]
fn restore_file_breaks_sharing_and_keeps_metadata() {
    let mut tree = MemTree::new(false);
    tree.write("/v/master", b"shared");
    let number = tree.names["/v/master"];
    tree.names.insert(String::from("/d/target"), number);
    tree.node_mut("/d/target").unwrap().mode = 0o640;
    tree.node_mut("/d/target").unwrap().xattrs = vec![(b"user.k".to_vec(), b"v".to_vec())];
    let old = tree.node("/d/target").clone();
    let result = run_fs(restore_file("/d/target"), &mut tree, |j, r| j.resume(r));
    assert_eq!(result, Ok(None));
    assert_ne!(tree.names["/d/target"], number);
    assert_eq!(tree.names["/v/master"], number);
    assert_eq!(tree.node("/d/target"), &old);
    assert_eq!(
        run_fs(restore_file("/d/none"), &mut tree, |j, r| j.resume(r)),
        Err(LinkError::ReadTargetMetadata)
    );
}

#[test]
fn compare_files_finds_equality_and_difference() {
    let mut tree = MemTree::new(true);
    let mut big = vec![7u8; 300_000];
    tree.write("/a", &big);
    tree.write("/b", &big);
    big[299_999] = 8;
    tree.write("/c", &big);
    big.push(1);
    tree.write("/d", &big);
    tree.write("/e", b"");
    tree.write("/f", b"");
    let cmp = |tree: &mut MemTree, x: &str, y: &str| {
        run_fs(compare_files(x, y), tree, |j, r| j.resume(r))
    };
    assert_eq!(cmp(&mut tree, "/a", "/b"), Ok(true));
    assert_eq!(cmp(&mut tree, "/a", "/c"), Ok(false));
    assert_eq!(cmp(&mut tree, "/c", "/d"), Ok(false));
    assert_eq!(cmp(&mut tree, "/e", "/f"), Ok(true));
    assert_eq!(cmp(&mut tree, "/a", "/e"), Ok(false));
    assert!(cmp(&mut tree, "/a", "/none").is_err());
    assert!(cmp(&mut tree, "/none", "/a").is_err());
}

#[test]
fn ensure_in_vault_moves_the_file_once() {
    let mut tree = MemTree::new(true);
    tree.write("/d/a", b"abc");
    tree.write("/d/b", b"abc");
    let hash = full_digest(b"abc");
    let dest = shard_path("/v", &hash);
    let number = tree.names["/d/a"];
    assert_eq!(run_fs(ensure_in_vault("/v", &hash, "/d/a"), &mut tree, |j, r| j.resume(r)), Ok(()));
    assert_eq!(tree.names[&dest], number);
    assert!(!tree.names.contains_key("/d/a"));
    assert!(tree.dirs.contains(&parent_of(&dest)));
    assert!(!tree.names.contains_key(&format!("{}.imprint_tmp", dest)));
    // The master is there: the second file stays where it is.
    assert_eq!(run_fs(ensure_in_vault("/v", &hash, "/d/b"), &mut tree, |j, r| j.resume(r)), Ok(()));
    assert!(tree.names.contains_key("/d/b"));
    assert_eq!(tree.names[&dest], number);
}

#[test]
fn remove_from_vault_prunes_empty_shards_only() {
    let mut tree = MemTree::new(true);
    let mut one = [0u8; 32];
    one[0] = 0xab;
    one[1] = 0xcd;
    let mut two = one;
    two[2] = 1;
    let mut three = one;
    three[1] = 0xce;
    for hash in [one, two, three] {
        tree.write(&shard_path("/v", &hash), b"m");
    }
    assert_eq!(run_fs(remove_from_vault("/v", &one), &mut tree, |j, r| j.resume(r)), Ok(()));
    assert!(!tree.names.contains_key(&shard_path("/v", &one)));
    assert!(tree.dirs.contains("/v/ab/cd"), "the shard still holds a master");
    assert_eq!(run_fs(remove_from_vault("/v", &two), &mut tree, |j, r| j.resume(r)), Ok(()));
    assert!(!tree.dirs.contains("/v/ab/cd"));
    assert!(tree.dirs.contains("/v/ab"), "the outer shard still holds a shard");
    assert_eq!(run_fs(remove_from_vault("/v", &three), &mut tree, |j, r| j.resume(r)), Ok(()));
    assert!(!tree.dirs.contains("/v/ab"));
    // Nothing to remove is no error.
    assert_eq!(run_fs(remove_from_vault("/v", &three), &mut tree, |j, r| j.resume(r)), Ok(()));
}

#[test]
fn restore_lowers_counts_and_prunes_at_zero() {
    let mut world = World::new(true);
    for name in ["a", "b", "c"] {
        world.tree.write(&format!("/home/u/data/one/{}", name), b"triple");
    }
    assert_eq!(dedupe(&mut world, "/home/u/data", options(false, false, false)), 1);
    let hash = full_digest(b"triple");
    assert_eq!(world.store.count(&hash), 3);
    world.told.clear();
    // Restore one file alone.
    let entries = vec![WalkEntry {
        path: String::from("/home/u/data/one/b"),
        is_file: true,
        size: Some(6),
    }];
    let walk = Walk { root_readable: true, entries };
    let summary =
        run(restore_pipeline(&root(), walk, false).unwrap(), &mut world, |j, r| j.resume(r));
    assert_eq!(summary, RestoreSummary { restored: 1, bytes: 6 });
    assert_eq!(world.store.count(&hash), 2);
    assert_eq!(vault_files(&world).len(), 1);
    assert!(!world.told.iter().any(|r| matches!(r, Report::Pruned)));
    let summary = restore(&mut world, "/home/u/data", false);
    assert_eq!(summary.restored, 2);
    assert_eq!(world.store.count(&hash), 0);
    assert!(vault_files(&world).is_empty());
    assert_eq!(world.told.iter().filter(|r| matches!(r, Report::Pruned)).count(), 1);
    // A third run finds nothing to restore.
    assert_eq!(restore(&mut world, "/home/u/data", false), RestoreSummary { restored: 0, bytes: 0 });
}

#[test]
fn sparse_hash_samples_three_windows() {
    let size = 20_000usize;
    let content: Vec<u8> = (0..size).map(|i| (i % 251) as u8).collect();
    let mid = size / 2 - 2048;
    let mut sample = content[..4096].to_vec();
    sample.extend_from_slice(&content[mid..mid + 4096]);
    sample.extend_from_slice(&content[size - 4096..]);
    assert_eq!(sparse_digest(&content), *blake3::hash(&sample).as_bytes());
    assert_eq!(full_digest(&content), *blake3::hash(&content).as_bytes());
    // A byte outside the windows changes the full hash alone.
    let mut other = content.clone();
    other[5000] ^= 1;
    assert_eq!(sparse_digest(&other), sparse_digest(&content));
    assert_ne!(full_digest(&other), full_digest(&content));
    // Up to 12 KiB the sparse hash is the full hash.
    let small = vec![9u8; 12 * 1024];
    assert_eq!(sparse_digest(&small), *blake3::hash(&small).as_bytes());
    let empty: [u8; 0] = [];
    assert_eq!(
        hash_to_hex(&full_digest(&empty)),
        "af1349b9f5f9a1a6a0404dea36dcc9499bcb25c9adc112b7cc9a93cae41f3262"
    );
}

#[test]
fn sparse_hash_fails_on_a_file_shorter_than_measured() {
    let mut tree = MemTree::new(true);
    tree.write("/f", &vec![1u8; 13_000]);
    let result = run_fs(sparse_hash("/f", 20_000), &mut tree, |j, r| j.resume(r));
    assert!(result.is_err());
    let result = run_fs(full_hash("/none"), &mut tree, |j, r| j.resume(r));
    assert!(result.is_err());
}

#[test]
fn sparse_hash_moves_the_middle_window_to_allocated_data() {
    // Drive the job by hand, answering the extent query.
    let size: u64 = 1 << 20;
    let mut step = sparse_hash("/f", size);
    let mut asked = Vec::new();
    let hash = loop {
        match step {
            Step::Finish(result) => break result.unwrap(),
            Step::Ask(job, request) => {
                let reply = match &request {
                    FsRequest::ReadAt { offset, len, .. } => {
                        asked.push((*offset, *len));
                        FsReply::Bytes(vec![(*offset % 256) as u8; *len])
                    }
                    FsRequest::QueryExtents { start, .. } => {
                        assert_eq!(*start, size / 2 - 2048);
                        FsReply::Extents(vec![
                            Extent { logical: 0, length: 8192 },
                            Extent { logical: 700_000, length: 4096 },
                        ])
                    }
                    other => panic!("unexpected request {:?}", other),
                };
                step = job.resume(reply);
            }
        }
    };
    assert_eq!(asked, vec![(0, 4096), (700_000, 4096), (size - 4096, 4096)]);
    let mut sample = vec![0u8; 4096];
    sample.extend_from_slice(&vec![(700_000u64 % 256) as u8; 4096]);
    sample.extend_from_slice(&vec![((size - 4096) % 256) as u8; 4096]);
    assert_eq!(hash, *blake3::hash(&sample).as_bytes());
}

#[test]
fn a_root_that_cannot_be_read_is_fatal() {
    let mut world = World::new(true);
    world.tree.write("/home/u/data/a", b"same");
    world.tree.write("/home/u/data/b", b"same");
    let walk = world.tree.walk("/home/u/none");
    assert!(!walk.root_readable);
    assert_eq!(stream_scan(&walk), Err(WalkError::RootUnreadable));
    assert!(matches!(restore_pipeline(&root(), walk, false), Err(WalkError::RootUnreadable)));
    // Entries count for nothing where the root could not be read.
    let walk = Walk { root_readable: false, entries: world.tree.entries("/home/u/data") };
    assert_eq!(stream_scan(&walk), Err(WalkError::RootUnreadable));
    assert!(matches!(restore_pipeline(&root(), walk, true), Err(WalkError::RootUnreadable)));
    assert_eq!(world.tree.writes, 0);
}

#[test]
fn the_first_file_seen_becomes_the_master() {
    let mut world = World::new(true);
    for name in ["a", "b", "c", "d"] {
        world.tree.write(&format!("/home/u/data/{}", name), b"four of a kind");
    }
    let first = world.tree.names["/home/u/data/a"];
    // The digests become known in the reverse of the order of the walk.
    let groups = scan(&mut world, "/home/u/data");
    assert_eq!(groups.len(), 1);
    assert_eq!(
        groups[0].paths,
        vec!["/home/u/data/a", "/home/u/data/b", "/home/u/data/c", "/home/u/data/d"]
    );
    let result = run(dedupe_groups(&root(), groups, options(false, false, false)), &mut world, |j, r| {
        j.resume(r)
    });
    assert_eq!(result, Ok(()));
    assert_eq!(world.tree.names[&vault_files(&world)[0]], first, "the master is the first file");
}

#[test]
fn a_dry_run_writes_nothing_to_a_store_that_is_there() {
    let mut world = World::new(true);
    world.tree.write("/home/u/data/a", b"dup");
    world.tree.write("/home/u/data/b", b"dup");
    assert_eq!(dedupe(&mut world, "/home/u/data", options(false, false, false)), 1);
    world.tree.write("/home/u/data/c", b"new pair");
    world.tree.write("/home/u/data/d", b"new pair");
    let tables = world.store.tables.clone();
    let names = world.tree.names.clone();
    world.store.mode = StoreMode::ReadOnly;
    assert_eq!(dedupe(&mut world, "/home/u/data", options(false, true, false)), 2);
    assert_eq!(world.store.tables, tables, "the scan of a dry run records nothing");
    assert_eq!(world.tree.names, names);
    // Without a store the same run holds nothing and keeps nothing.
    world.store.mode = StoreMode::Absent;
    world.store.tables.clear();
    assert_eq!(dedupe(&mut world, "/home/u/data", options(false, true, false)), 2);
    assert!(world.store.tables.is_empty());
}

