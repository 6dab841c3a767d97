//! The plain functions: paths, formats, buckets and groups, and single
//! steps of the protocols.

use imprint::dedupe::{compare_files, replace_with_link, restore_file, CompareError, LinkError};
use imprint::hasher::{adjust_offset_for_sparse, full_hash, mid_target, sparse_hash, HashError};
use imprint::orchestrator::{dedupe_groups, DedupeError, DedupeOptions};
use imprint::paths::TempCleanup;
use imprint::pipeline::{
    duplicate_count, file_modified, index_file, refcount_requests, DuplicateGroup, HashGroups,
    Reply, Report, Request,
};
use imprint::requests::{Extent, FileStat, FsReply, FsRequest, Step};
use imprint::restore::{restore_pipeline, RestoreSummary};
use imprint::scanner::{
    group_by_size, stream_scan, Arrived, Dispatch, SizeIndex, Walk, WalkEntry, WalkError,
};
use imprint::state::{
    decode_count, decode_metadata, encode_count, encode_metadata, hash_key, inode_key, path_key,
    answer_without_store, RawKind, RawReply, StoreMode, StoreReply, StoreRequest, Table,
};
use imprint::types::{hash_to_hex, FileMetadata};
use imprint::vault::{ensure_in_vault, remove_from_vault, shard_path, VaultError};

fn entry(path: &str, is_file: bool, size: Option<u64>) -> WalkEntry {
    WalkEntry { path: path.to_string(), is_file, size }
}

fn walk_of(entries: Vec<WalkEntry>) -> Walk {
    Walk { root_readable: true, entries }
}

fn arrived(path: &str, arrival: u64) -> Arrived {
    Arrived { path: path.to_string(), arrival }
}

fn hash_of(byte: u8) -> [u8; 32] {
    [byte; 32]
}

#[test]
fn hex_is_lowercase_and_high_nibble_first() {
    let mut hash = [0u8; 32];
    hash[0] = 0x01;
    hash[1] = 0xAB;
    hash[2] = 0xF0;
    let hex = hash_to_hex(&hash);
    assert_eq!(&hex[..6], "01abf0");
    assert_eq!(hex.len(), 64);
    assert!(hex[6..].chars().all(|c| c == '0'));
}

#[test]
fn stream_scan_keeps_regular_files_in_walk_order() {
    let entries = vec![
        entry("/d", false, Some(0)),
        entry("/d/b", true, Some(3)),
        entry("/d/x.imprint_tmp", true, Some(3)),
        entry("/d/unreadable", true, None),
        entry("/d/link", false, Some(3)),
        entry("/d/a", true, Some(3)),
        entry("/d/.imprint_tmp", true, Some(1)),
        entry("/d/imprint_tmp", true, Some(1)),
    ];
    let unreadable = Walk { root_readable: false, entries: entries.clone() };
    assert_eq!(stream_scan(&unreadable), Err(WalkError::RootUnreadable));
    assert!(matches!(group_by_size(&unreadable), Err(WalkError::RootUnreadable)));
    assert_eq!(
        stream_scan(&walk_of(entries)),
        Ok(vec!["/d/b".to_string(), "/d/a".to_string(), "/d/imprint_tmp".to_string()])
    );
    assert_eq!(stream_scan(&walk_of(Vec::new())), Ok(Vec::new()));
}

#[test]
fn group_by_size_buckets_in_walk_order() {
    let entries = vec![
        entry("/d/a", true, Some(3)),
        entry("/d/b", true, Some(4)),
        entry("/d/c", true, Some(3)),
        entry("/d/t.imprint_tmp", true, Some(3)),
        entry("/d/dir", false, Some(3)),
        entry("/d/e", true, Some(0)),
    ];
    let index = match group_by_size(&walk_of(entries)) {
        Ok(index) => index,
        Err(error) => panic!("{:?}", error),
    };
    assert_eq!(index.get(3), vec!["/d/a", "/d/c"]);
    assert_eq!(index.get(4), vec!["/d/b"]);
    assert_eq!(index.get(0), vec!["/d/e"]);
    assert!(index.get(5).is_empty());
}

#[test]
fn files_are_dispatched_iff_their_size_is_shared() {
    let arrivals = [("a", 1u64), ("b", 2), ("c", 1), ("d", 3), ("e", 1), ("f", 2), ("g", 1)];
    let mut index = SizeIndex::new();
    let mut dispatched = Vec::new();
    for (path, size) in arrivals {
        let (next, dispatch) = index.insert(path.to_string(), size);
        index = next;
        match dispatch {
            Dispatch::Hold => {}
            Dispatch::Pair(first, second) => {
                dispatched.push((first.path, first.arrival));
                dispatched.push((second.path, second.arrival));
            }
            Dispatch::One(file) => dispatched.push((file.path, file.arrival)),
        }
    }
    let expected: Vec<(String, u64)> = [("a", 0), ("c", 2), ("e", 4), ("b", 1), ("f", 5), ("g", 6)]
        .iter()
        .map(|(path, arrival)| (path.to_string(), *arrival))
        .collect();
    assert_eq!(dispatched, expected);
    assert_eq!(index.get(1), vec!["a", "c", "e", "g"]);
    assert_eq!(index.get(3), vec!["d"]);
}

#[test]
fn middle_window_offsets() {
    assert_eq!(mid_target(0), 0);
    assert_eq!(mid_target(4095), 0);
    assert_eq!(mid_target(4096), 0);
    assert_eq!(mid_target(4098), 1);
    assert_eq!(mid_target(15360), 5632);
    assert_eq!(mid_target(u64::MAX), u64::MAX / 2 - 2048);
}

#[test]
fn extents_move_the_middle_window() {
    let e = |logical, length| Extent { logical, length };
    // No extents, or none at or after the target: the target stands.
    assert_eq!(adjust_offset_for_sparse(&[], 5000, 100_000), 5000);
    assert_eq!(adjust_offset_for_sparse(&[e(0, 4096)], 5000, 100_000), 5000);
    // The target lies in an extent.
    assert_eq!(adjust_offset_for_sparse(&[e(4096, 4096)], 5000, 100_000), 5000);
    assert_eq!(adjust_offset_for_sparse(&[e(5000, 1)], 5000, 100_000), 5000);
    // An extent ends just before the target, the next starts later.
    assert_eq!(adjust_offset_for_sparse(&[e(0, 5000), e(9000, 10)], 5000, 100_000), 9000);
    // The first deciding extent wins, whatever follows.
    assert_eq!(adjust_offset_for_sparse(&[e(7000, 10), e(4000, 5000)], 5000, 100_000), 7000);
    // Never past the start of the last window.
    assert_eq!(adjust_offset_for_sparse(&[e(99_000, 10)], 5000, 100_000), 95_904);
    assert_eq!(adjust_offset_for_sparse(&[e(95_904, 10)], 5000, 100_000), 95_904);
    assert_eq!(adjust_offset_for_sparse(&[e(9000, 10)], 5000, 100), 0);
    // Lengths that would overflow are no trouble.
    assert_eq!(adjust_offset_for_sparse(&[e(u64::MAX - 1, u64::MAX)], 5, u64::MAX), u64::MAX - 4096);
    assert_eq!(adjust_offset_for_sparse(&[e(4, u64::MAX)], 5, u64::MAX), 5);
}

#[test]
fn metadata_bytes_are_fixed_width_and_field_ordered() {
    let metadata = FileMetadata { size: 0x0102, modified: 1_000_000_000, hash: hash_of(7) };
    let bytes = encode_metadata(&metadata).unwrap();
    let mut expected = vec![2, 1, 0, 0, 0, 0, 0, 0];
    expected.extend_from_slice(&1_000_000_000u64.to_le_bytes());
    expected.extend_from_slice(&[7u8; 32]);
    assert_eq!(bytes, expected);
    let back = decode_metadata(&bytes).unwrap();
    assert_eq!((back.size, back.modified, back.hash), (0x0102, 1_000_000_000, hash_of(7)));
    // Bytes that follow a record are not looked at; too few are no record.
    let mut longer = bytes.clone();
    longer.push(9);
    assert_eq!(decode_metadata(&longer).unwrap().size, 0x0102);
    assert!(decode_metadata(&bytes[..47]).is_none());
    assert!(decode_metadata(&[]).is_none());
}

#[test]
fn keys_and_counts() {
    assert_eq!(path_key("/a/é"), "/a/é".as_bytes());
    assert_eq!(hash_key(&hash_of(3)), vec![3u8; 32]);
    assert_eq!(inode_key(0x0102030405060708), vec![8, 7, 6, 5, 4, 3, 2, 1]);
    assert_eq!(encode_count(5), vec![5, 0, 0, 0, 0, 0, 0, 0]);
    assert_eq!(decode_count(&[5, 0, 0, 0, 0, 0, 0, 0]), Some(5));
    assert_eq!(decode_count(&encode_count(u64::MAX)), Some(u64::MAX));
    assert_eq!(decode_count(&[1, 2, 3]), None);
    assert_eq!(decode_count(&[0; 9]), None);
}

#[test]
fn store_requests_become_raw_operations() {
    let metadata = FileMetadata { size: 1, modified: 2, hash: hash_of(3) };
    let upsert = StoreRequest::UpsertFile { path: "/p".to_string(), metadata };
    let raw = upsert.encode().unwrap();
    assert_eq!((raw.table, raw.kind), (Table::FileIndex, RawKind::Put));
    assert_eq!(raw.key, b"/p");
    assert_eq!(raw.value.len(), 48);

    let raw = StoreRequest::SetCasRefcount { hash: hash_of(4), count: 9 }.encode().unwrap();
    assert_eq!((raw.table, raw.kind), (Table::CasIndex, RawKind::Put));
    assert_eq!((raw.key, raw.value), (vec![4u8; 32], vec![9, 0, 0, 0, 0, 0, 0, 0]));

    let raw = StoreRequest::MarkInodeVaulted { inode: 1 }.encode().unwrap();
    assert_eq!((raw.table, raw.kind), (Table::VaultedInodes, RawKind::Put));
    assert_eq!((raw.key, raw.value), (vec![1, 0, 0, 0, 0, 0, 0, 0], vec![1u8]));

    let raw = StoreRequest::UnmarkInodeVaulted { inode: 1 }.encode().unwrap();
    assert_eq!((raw.table, raw.kind, raw.value.len()), (Table::VaultedInodes, RawKind::Delete, 0));
    let raw = StoreRequest::IsInodeVaulted { inode: 1 }.encode().unwrap();
    assert_eq!((raw.table, raw.kind), (Table::VaultedInodes, RawKind::Get));
    let raw = StoreRequest::GetCasRefcount { hash: hash_of(4) }.encode().unwrap();
    assert_eq!((raw.table, raw.kind), (Table::CasIndex, RawKind::Get));
    let raw = StoreRequest::RemoveCasRefcount { hash: hash_of(4) }.encode().unwrap();
    assert_eq!((raw.table, raw.kind), (Table::CasIndex, RawKind::Delete));
    let raw = StoreRequest::GetFileMetadata { path: "/p".to_string() }.encode().unwrap();
    assert_eq!((raw.table, raw.kind), (Table::FileIndex, RawKind::Get));
    let raw = StoreRequest::RemoveFileFromIndex { path: "/p".to_string() }.encode().unwrap();
    assert_eq!((raw.table, raw.kind), (Table::FileIndex, RawKind::Delete));

    assert_eq!(Table::FileIndex.name(), "file_index");
    assert_eq!(Table::CasIndex.name(), "cas_index");
    assert_eq!(Table::VaultedInodes.name(), "vaulted_inodes");
}

#[test]
fn a_store_that_is_only_read_takes_no_write() {
    let put = StoreRequest::SetCasRefcount { hash: hash_of(1), count: 2 }.encode().unwrap();
    let delete = StoreRequest::RemoveCasRefcount { hash: hash_of(1) }.encode().unwrap();
    let get = StoreRequest::GetCasRefcount { hash: hash_of(1) }.encode().unwrap();
    for raw in [&put, &delete, &get] {
        assert!(answer_without_store(StoreMode::ReadWrite, raw).is_none());
    }
    assert!(matches!(answer_without_store(StoreMode::ReadOnly, &put), Some(RawReply::Done)));
    assert!(matches!(answer_without_store(StoreMode::ReadOnly, &delete), Some(RawReply::Done)));
    assert!(answer_without_store(StoreMode::ReadOnly, &get).is_none());
    assert!(matches!(answer_without_store(StoreMode::Absent, &put), Some(RawReply::Done)));
    assert!(matches!(answer_without_store(StoreMode::Absent, &delete), Some(RawReply::Done)));
    assert!(matches!(answer_without_store(StoreMode::Absent, &get), Some(RawReply::Missing)));
}

#[test]
fn raw_replies_become_answers() {
    let get_count = StoreRequest::GetCasRefcount { hash: hash_of(1) };
    assert!(matches!(get_count.decode(&RawReply::Missing), StoreReply::Count(0)));
    assert!(matches!(get_count.decode(&RawReply::Found(encode_count(7))), StoreReply::Count(7)));
    assert!(matches!(get_count.decode(&RawReply::Found(vec![1, 2])), StoreReply::Failed));
    assert!(matches!(get_count.decode(&RawReply::Failed), StoreReply::Failed));
    assert!(matches!(get_count.decode(&RawReply::Done), StoreReply::Failed));

    let vaulted = StoreRequest::IsInodeVaulted { inode: 5 };
    assert!(matches!(vaulted.decode(&RawReply::Missing), StoreReply::Flag(false)));
    assert!(matches!(vaulted.decode(&RawReply::Found(vec![1])), StoreReply::Flag(true)));
    assert!(matches!(vaulted.decode(&RawReply::Failed), StoreReply::Failed));

    let get = StoreRequest::GetFileMetadata { path: "/p".to_string() };
    assert!(matches!(get.decode(&RawReply::Missing), StoreReply::Metadata(None)));
    assert!(matches!(get.decode(&RawReply::Found(vec![0; 10])), StoreReply::Failed));
    let metadata = FileMetadata { size: 11, modified: 12, hash: hash_of(13) };
    match get.decode(&RawReply::Found(encode_metadata(&metadata).unwrap())) {
        StoreReply::Metadata(Some(m)) => {
            assert_eq!((m.size, m.modified, m.hash), (11, 12, hash_of(13)))
        }
        other => panic!("{:?}", other),
    }

    let mark = StoreRequest::MarkInodeVaulted { inode: 5 };
    assert!(matches!(mark.decode(&RawReply::Done), StoreReply::Done));
    assert!(matches!(mark.decode(&RawReply::Failed), StoreReply::Failed));
    assert!(matches!(mark.decode(&RawReply::Missing), StoreReply::Failed));
}

#[test]
fn groups_collect_by_digest_in_arrival_order() {
    let mut groups = HashGroups::new();
    let mut arrival = 0;
    for (hash, path) in [(1u8, "a"), (2, "b"), (1, "c"), (3, "d"), (2, "e"), (1, "f")] {
        groups = groups.record(hash_of(hash), arrived(path, arrival));
        arrival += 1;
    }
    let groups = groups.into_groups();
    let seen: Vec<(u8, Vec<String>)> =
        groups.iter().map(|g| (g.hash[0], g.paths.clone())).collect();
    assert_eq!(
        seen,
        vec![
            (1, vec!["a".to_string(), "c".to_string(), "f".to_string()]),
            (2, vec!["b".to_string(), "e".to_string()]),
            (3, vec!["d".to_string()]),
        ]
    );
    assert_eq!(duplicate_count(&groups), 2);
    let requests = refcount_requests(&groups);
    assert_eq!(requests.len(), 2);
    assert!(matches!(
        &requests[0],
        StoreRequest::SetCasRefcount { hash, count: 3 } if *hash == hash_of(1)
    ));
    assert!(matches!(
        &requests[1],
        StoreRequest::SetCasRefcount { hash, count: 2 } if *hash == hash_of(2)
    ));
    assert_eq!(duplicate_count(&Vec::new()), 0);
}

#[test]
fn digests_with_one_prefix_found_their_own_groups() {
    let mut one = [9u8; 32];
    let mut two = [9u8; 32];
    let mut three = [9u8; 32];
    one[31] = 1;
    two[8] = 2;
    three[0] = 3;
    let mut groups = HashGroups::new();
    let mut arrival = 0;
    for (hash, path) in
        [(one, "a"), (two, "b"), (three, "c"), (two, "d"), (one, "e"), (three, "f"), (two, "g")]
    {
        groups = groups.record(hash, arrived(path, arrival));
        arrival += 1;
    }
    let groups = groups.into_groups();
    let seen: Vec<([u8; 32], Vec<String>)> =
        groups.iter().map(|g| (g.hash, g.paths.clone())).collect();
    assert_eq!(
        seen,
        vec![
            (one, vec!["a".to_string(), "e".to_string()]),
            (two, vec!["b".to_string(), "d".to_string(), "g".to_string()]),
            (three, vec!["c".to_string(), "f".to_string()]),
        ]
    );
}

#[test]
fn groups_keep_the_order_of_arrival_whatever_the_order_of_recording() {
    let mut groups = HashGroups::new();
    for (hash, path, arrival) in
        [(1u8, "late", 9u64), (2, "y", 5), (1, "early", 2), (1, "middle", 4), (2, "x", 3), (1, "tie", 4)]
    {
        groups = groups.record(hash_of(hash), arrived(path, arrival));
    }
    let groups = groups.into_groups();
    let seen: Vec<(u8, Vec<String>)> =
        groups.iter().map(|g| (g.hash[0], g.paths.clone())).collect();
    assert_eq!(
        seen,
        vec![
            (
                1,
                vec![
                    "early".to_string(),
                    "middle".to_string(),
                    "tie".to_string(),
                    "late".to_string()
                ]
            ),
            (2, vec!["x".to_string(), "y".to_string()]),
        ]
    );
}

#[test]
fn modification_time_before_the_epoch_is_zero() {
    let stat = |mtime_seconds| FileStat { size: 0, inode: 0, mode: 0, mtime_seconds, mtime_nanos: 5 };
    assert_eq!(file_modified(&stat(-1)), 0);
    assert_eq!(file_modified(&stat(0)), 0);
    assert_eq!(file_modified(&stat(1_000_000_000)), 1_000_000_000);
    assert_eq!(file_modified(&stat(i64::MAX)), i64::MAX as u64);
}

#[test]
fn temp_cleanup_asks_only_while_armed() {
    let mut guard = TempCleanup::new("/d/f.imprint_tmp".to_string());
    assert!(guard.armed);
    assert!(matches!(
        guard.release(),
        Some(FsRequest::Exists { path }) if path == "/d/f.imprint_tmp"
    ));
    guard.disarm();
    assert!(!guard.armed);
    assert_eq!(guard.path, "/d/f.imprint_tmp");
    assert!(guard.release().is_none());
}

/// Drives a protocol with replies given in order and returns the
/// requests it made, as text, and its result.
fn script<J, T>(
    start: Step<J, FsRequest, T>,
    replies: Vec<FsReply>,
    resume: impl Fn(J, FsReply) -> Step<J, FsRequest, T>,
) -> (Vec<String>, T) {
    let mut asked = Vec::new();
    let mut replies = replies.into_iter();
    let mut step = start;
    loop {
        match step {
            Step::Finish(result) => {
                assert!(replies.next().is_none(), "replies are left over");
                return (asked, result);
            }
            Step::Ask(job, request) => {
                asked.push(format!("{:?}", request));
                let reply = replies.next().expect("a reply is missing");
                step = resume(job, reply);
            }
        }
    }
}

fn stat(mode: u32) -> FsReply {
    FsReply::Stat(FileStat { size: 3, inode: 9, mode, mtime_seconds: 50, mtime_nanos: 6 })
}

#[test]
fn replace_with_link_asks_in_order() {
    let (asked, result) = script(
        replace_with_link("/v/m", "/d/t", false),
        vec![
            stat(0o444),
            FsReply::Names(vec![b"user.a".to_vec(), b"user.gone".to_vec()]),
            FsReply::Value(Some(b"1".to_vec())),
            FsReply::Value(None),
            FsReply::Flag(true),
            FsReply::Done,
            FsReply::Done,
            FsReply::Done,
            FsReply::Done,
            FsReply::Done,
            FsReply::Failed,
        ],
        |j, r| j.resume(r),
    );
    assert_eq!(result, Ok(Some(imprint::dedupe::LinkType::Reflink)));
    assert_eq!(
        asked,
        vec![
            "Stat { path: \"/d/t\" }",
            "ListXattrs { path: \"/d/t\" }",
            "GetXattr { path: \"/d/t\", name: [117, 115, 101, 114, 46, 97] }",
            "GetXattr { path: \"/d/t\", name: [117, 115, 101, 114, 46, 103, 111, 110, 101] }",
            "Exists { path: \"/d/t.imprint_tmp\" }",
            "RemoveFile { path: \"/d/t.imprint_tmp\" }",
            "Reflink { from: \"/v/m\", to: \"/d/t.imprint_tmp\" }",
            "Rename { from: \"/d/t.imprint_tmp\", to: \"/d/t\" }",
            "SetPermissions { path: \"/d/t\", mode: 292 }",
            "SetMtime { path: \"/d/t\", seconds: 50, nanos: 6 }",
            "SetXattr { path: \"/d/t\", name: [117, 115, 101, 114, 46, 97], value: [49] }",
        ]
    );
}

#[test]
fn replace_with_link_records_the_master_at_a_vacant_path() {
    let (asked, result) = script(
        replace_with_link("/v/m", "/d/t", false),
        vec![
            FsReply::Failed,
            FsReply::Flag(false),
            stat(0o444),
            FsReply::Names(vec![b"user.a".to_vec()]),
            FsReply::Value(Some(b"1".to_vec())),
            FsReply::Flag(false),
            FsReply::Done,
            FsReply::Done,
            FsReply::Done,
            FsReply::Done,
            FsReply::Done,
        ],
        |j, r| j.resume(r),
    );
    assert_eq!(result, Ok(Some(imprint::dedupe::LinkType::Reflink)));
    assert_eq!(
        asked,
        vec![
            "Stat { path: \"/d/t\" }",
            "Exists { path: \"/d/t\" }",
            "Stat { path: \"/v/m\" }",
            "ListXattrs { path: \"/v/m\" }",
            "GetXattr { path: \"/v/m\", name: [117, 115, 101, 114, 46, 97] }",
            "Exists { path: \"/d/t.imprint_tmp\" }",
            "Reflink { from: \"/v/m\", to: \"/d/t.imprint_tmp\" }",
            "Rename { from: \"/d/t.imprint_tmp\", to: \"/d/t\" }",
            "SetPermissions { path: \"/d/t\", mode: 292 }",
            "SetMtime { path: \"/d/t\", seconds: 50, nanos: 6 }",
            "SetXattr { path: \"/d/t\", name: [117, 115, 101, 114, 46, 97], value: [49] }",
        ]
    );
    // A master that cannot be read is an error.
    let (_, result) = script(
        replace_with_link("/v/m", "/d/t", false),
        vec![FsReply::Failed, FsReply::Flag(false), FsReply::Failed],
        |j, r| j.resume(r),
    );
    assert_eq!(result, Err(LinkError::ReadTargetMetadata));
}

#[test]
fn replace_with_link_errors_name_the_failed_operation() {
    let run = |replies: Vec<FsReply>, allow: bool| {
        script(replace_with_link("/v/m", "/d/t", allow), replies, |j, r| j.resume(r))
    };
    // The target is there and cannot be read.
    let (_, result) = run(vec![FsReply::Failed, FsReply::Flag(true)], false);
    assert_eq!(result, Err(LinkError::ReadTargetMetadata));
    // A stale staged file cannot be removed.
    let (_, result) =
        run(vec![stat(0), FsReply::Failed, FsReply::Flag(true), FsReply::Failed], false);
    assert_eq!(result, Err(LinkError::RemoveStaleTemp));
    // No clone, and no hard link allowed: what the clone left is removed.
    let (asked, result) = run(
        vec![
            stat(0),
            FsReply::Failed,
            FsReply::Flag(false),
            FsReply::Failed,
            FsReply::Flag(true),
            FsReply::Done,
            FsReply::Flag(false),
        ],
        false,
    );
    assert_eq!(result, Err(LinkError::ReflinkUnsupported));
    assert_eq!(asked[4], "Exists { path: \"/d/t.imprint_tmp\" }");
    assert_eq!(asked[5], "RemoveFile { path: \"/d/t.imprint_tmp\" }");
    // The hard link fails: the guard removes the staged file.
    let (asked, result) = run(
        vec![
            stat(0),
            FsReply::Failed,
            FsReply::Flag(false),
            FsReply::Failed,
            FsReply::Flag(false),
            FsReply::Failed,
            FsReply::Flag(true),
            FsReply::Done,
        ],
        true,
    );
    assert_eq!(result, Err(LinkError::CreateHardLink));
    assert_eq!(asked[5], "HardLink { from: \"/v/m\", to: \"/d/t.imprint_tmp\" }");
    assert_eq!(asked[7], "RemoveFile { path: \"/d/t.imprint_tmp\" }");
    // The rename fails: the guard removes the staged file.
    let (asked, result) = run(
        vec![
            stat(0),
            FsReply::Names(vec![]),
            FsReply::Flag(false),
            FsReply::Done,
            FsReply::Failed,
            FsReply::Flag(true),
            FsReply::Failed,
        ],
        false,
    );
    assert_eq!(result, Err(LinkError::ReplaceTarget));
    assert_eq!(asked.len(), 7);
    assert_eq!(asked[6], "RemoveFile { path: \"/d/t.imprint_tmp\" }");
    // After the rename the guard is disarmed: nothing is removed.
    let (asked, result) = run(
        vec![stat(0), FsReply::Names(vec![]), FsReply::Flag(false), FsReply::Done, FsReply::Done, FsReply::Failed],
        false,
    );
    assert_eq!(result, Err(LinkError::RestorePermissions));
    assert_eq!(asked.len(), 6);
    let (_, result) = run(
        vec![
            stat(0),
            FsReply::Names(vec![]),
            FsReply::Flag(false),
            FsReply::Done,
            FsReply::Done,
            FsReply::Done,
            FsReply::Failed,
        ],
        false,
    );
    assert_eq!(result, Err(LinkError::RestoreMtime));
}

#[test]
fn restore_file_copies_bytes_and_names_its_errors() {
    let run = |replies: Vec<FsReply>| script(restore_file("/d/t"), replies, |j, r| j.resume(r));
    let (asked, result) = run(vec![
        stat(0o600),
        FsReply::Failed,
        FsReply::Flag(false),
        FsReply::Done,
        FsReply::Done,
        FsReply::Done,
        FsReply::Done,
    ]);
    assert_eq!(result, Ok(None));
    assert_eq!(asked[3], "CopyBytes { from: \"/d/t\", to: \"/d/t.imprint_tmp\" }");
    assert_eq!(asked[4], "Rename { from: \"/d/t.imprint_tmp\", to: \"/d/t\" }");
    assert_eq!(asked[5], "SetPermissions { path: \"/d/t\", mode: 384 }");
    let (asked, result) = run(vec![FsReply::Failed]);
    assert_eq!(result, Err(LinkError::ReadTargetMetadata));
    assert_eq!(asked.len(), 1);
    let (_, result) = run(vec![
        stat(0),
        FsReply::Failed,
        FsReply::Flag(false),
        FsReply::Failed,
        FsReply::Flag(false),
    ]);
    assert_eq!(result, Err(LinkError::CopyBytes));
}

#[test]
fn ensure_in_vault_falls_back_to_copy_and_names_its_errors() {
    let hash = hash_of(0xab);
    let dest = shard_path("/v", &hash);
    let run = |replies: Vec<FsReply>| {
        script(ensure_in_vault("/v", &hash, "/d/src"), replies, |j, r| j.resume(r))
    };
    // Across devices: copy, flush, publish, then remove the source.
    let (asked, result) = run(vec![
        FsReply::Flag(false),
        FsReply::Done,
        FsReply::Flag(false),
        FsReply::Failed,
        FsReply::Done,
        FsReply::Done,
        FsReply::Done,
        FsReply::Done,
    ]);
    assert_eq!(result, Ok(()));
    assert_eq!(
        asked,
        vec![
            format!("Exists {{ path: {:?} }}", dest),
            String::from("CreateDirAll { path: \"/v/ab/ab\" }"),
            format!("Exists {{ path: \"{}.imprint_tmp\" }}", dest),
            format!("Rename {{ from: \"/d/src\", to: \"{}.imprint_tmp\" }}", dest),
            format!("CopyFile {{ from: \"/d/src\", to: \"{}.imprint_tmp\" }}", dest),
            format!("SyncFile {{ path: \"{}.imprint_tmp\" }}", dest),
            format!("Rename {{ from: \"{}.imprint_tmp\", to: {:?} }}", dest, dest),
            String::from("RemoveFile { path: \"/d/src\" }"),
        ]
    );
    let (_, result) = run(vec![FsReply::Flag(false), FsReply::Failed]);
    assert_eq!(result, Err(VaultError::CreateDirectory));
    let (_, result) =
        run(vec![FsReply::Flag(false), FsReply::Done, FsReply::Flag(true), FsReply::Failed]);
    assert_eq!(result, Err(VaultError::RemoveStaleTemp));
    let (asked, result) = run(vec![
        FsReply::Flag(false),
        FsReply::Done,
        FsReply::Flag(false),
        FsReply::Failed,
        FsReply::Failed,
        FsReply::Flag(true),
        FsReply::Done,
    ]);
    assert_eq!(result, Err(VaultError::CopyIntoTemp));
    assert_eq!(asked[6], format!("RemoveFile {{ path: \"{}.imprint_tmp\" }}", dest));
    let (_, result) = run(vec![
        FsReply::Flag(false),
        FsReply::Done,
        FsReply::Flag(false),
        FsReply::Failed,
        FsReply::Done,
        FsReply::Failed,
        FsReply::Flag(false),
    ]);
    assert_eq!(result, Err(VaultError::SyncTemp));
    let (_, result) = run(vec![
        FsReply::Flag(false),
        FsReply::Done,
        FsReply::Flag(false),
        FsReply::Done,
        FsReply::Failed,
        FsReply::Flag(false),
    ]);
    assert_eq!(result, Err(VaultError::Finalize));
    let (_, result) = run(vec![
        FsReply::Flag(false),
        FsReply::Done,
        FsReply::Flag(false),
        FsReply::Failed,
        FsReply::Done,
        FsReply::Done,
        FsReply::Done,
        FsReply::Failed,
    ]);
    assert_eq!(result, Err(VaultError::RemoveSource));
    let (_, result) = script(
        remove_from_vault("/v", &hash),
        vec![FsReply::Flag(true), FsReply::Failed],
        |j, r| j.resume(r),
    );
    assert_eq!(result, Err(VaultError::RemoveMaster));
}

#[test]
fn hashing_and_comparing_fail_on_failed_reads() {
    let (_, result) = script(full_hash("/f"), vec![FsReply::Failed], |j, r| j.resume(r));
    assert_eq!(result, Err(HashError::Read));
    let (_, result) =
        script(full_hash("/f"), vec![FsReply::Bytes(vec![0; 131073])], |j, r| j.resume(r));
    assert_eq!(result, Err(HashError::Read));
    let (_, result) =
        script(sparse_hash("/f", 20_000), vec![FsReply::Bytes(vec![0; 4095])], |j, r| j.resume(r));
    assert_eq!(result, Err(HashError::Read));
    let (_, result) = script(compare_files("/a", "/b"), vec![FsReply::Failed], |j, r| j.resume(r));
    assert_eq!(result, Err(CompareError::Read));
    let (_, result) = script(
        compare_files("/a", "/b"),
        vec![FsReply::Bytes(vec![1]), FsReply::Failed],
        |j, r| j.resume(r),
    );
    assert_eq!(result, Err(CompareError::Read));
    // Reads of different length make the files differ.
    let (_, result) = script(
        compare_files("/a", "/b"),
        vec![FsReply::Bytes(vec![1, 2]), FsReply::Bytes(vec![1])],
        |j, r| j.resume(r),
    );
    assert_eq!(result, Ok(false));
}

/// Drives a run with replies given in order.
fn script_run<J, T>(
    start: Step<J, Request, T>,
    replies: Vec<Reply>,
    resume: impl Fn(J, Reply) -> Step<J, Request, T>,
) -> (Vec<Request>, T) {
    let mut asked = Vec::new();
    let mut replies = replies.into_iter();
    let mut step = start;
    loop {
        match step {
            Step::Finish(result) => {
                assert!(replies.next().is_none(), "replies are left over");
                return (asked, result);
            }
            Step::Ask(job, request) => {
                asked.push(request);
                let reply = replies.next().expect("a reply is missing");
                step = resume(job, reply);
            }
        }
    }
}

fn pair() -> Vec<DuplicateGroup> {
    vec![
        DuplicateGroup { hash: hash_of(1), paths: vec!["/d/only".to_string()] },
        DuplicateGroup { hash: hash_of(2), paths: vec!["/d/a".to_string(), "/d/b".to_string()] },
    ]
}

#[test]
fn dedupe_gives_up_on_errors_that_are_no_refusal() {
    let options = DedupeOptions { paranoid: false, dry_run: false, allow_unsafe_hardlinks: true };
    // The vault cannot create its directories.
    let (asked, result) = script_run(
        dedupe_groups("/v", pair(), options),
        vec![Reply::Fs(FsReply::Flag(false)), Reply::Fs(FsReply::Failed)],
        |j, r| j.resume(r),
    );
    assert_eq!(result, Err(DedupeError::Vault(VaultError::CreateDirectory)));
    assert!(
        matches!(&asked[0], Request::Fs(FsRequest::Exists { path }) if *path == shard_path("/v", &hash_of(2)))
    );
    // The master is in the vault; its old path is there and unreadable.
    let (_, result) = script_run(
        dedupe_groups("/v", pair(), options),
        vec![
            Reply::Fs(FsReply::Flag(true)),
            Reply::Fs(FsReply::Failed),
            Reply::Fs(FsReply::Flag(true)),
        ],
        |j, r| j.resume(r),
    );
    assert_eq!(result, Err(DedupeError::Link(LinkError::ReadTargetMetadata)));
    // A hard link is made, and its inode cannot be read, or not marked.
    let linked = |tail: Vec<Reply>| {
        let mut replies = vec![
            // The master is in the vault; its old path is vacant.
            Reply::Fs(FsReply::Flag(true)),
            Reply::Fs(FsReply::Failed),
            Reply::Fs(FsReply::Flag(false)),
            // The master's metadata is recorded in its place.
            Reply::Fs(stat(0o640)),
            Reply::Fs(FsReply::Names(vec![])),
            Reply::Fs(FsReply::Flag(false)),
            // No clone; a hard link.
            Reply::Fs(FsReply::Failed),
            Reply::Fs(FsReply::Flag(false)),
            Reply::Fs(FsReply::Done),
            Reply::Fs(FsReply::Done),
            Reply::Fs(FsReply::Done),
            Reply::Fs(FsReply::Done),
        ];
        replies.extend(tail);
        script_run(dedupe_groups("/v", pair(), options), replies, |j, r| j.resume(r))
    };
    let (_, result) = linked(vec![Reply::Fs(FsReply::Failed)]);
    assert_eq!(result, Err(DedupeError::ReadLinkedMetadata));
    let (asked, result) = linked(vec![Reply::Fs(stat(0)), Reply::Store(StoreReply::Failed)]);
    assert_eq!(result, Err(DedupeError::Store));
    assert!(matches!(
        asked.last(),
        Some(Request::Store(StoreRequest::MarkInodeVaulted { inode: 9 }))
    ));
    // Without groups of two there is nothing to do.
    let single = vec![DuplicateGroup { hash: hash_of(1), paths: vec!["/d/only".to_string()] }];
    let (asked, result) =
        script_run(dedupe_groups("/v", single, options), vec![], |j, r| j.resume(r));
    assert_eq!(result, Ok(()));
    assert!(asked.is_empty());
}

#[test]
fn rollback_copies_where_it_cannot_rename() {
    let options = DedupeOptions { paranoid: false, dry_run: false, allow_unsafe_hardlinks: false };
    let vault_path = shard_path("/v", &hash_of(2));
    let (asked, result) = script_run(
        dedupe_groups("/v", pair(), options),
        vec![
            // The master is in the vault; its old path is vacant.
            Reply::Fs(FsReply::Flag(true)),
            Reply::Fs(FsReply::Failed),
            Reply::Fs(FsReply::Flag(false)),
            // The master's metadata is recorded in its place.
            Reply::Fs(stat(0o640)),
            Reply::Fs(FsReply::Failed),
            Reply::Fs(FsReply::Flag(false)),
            // No clone.
            Reply::Fs(FsReply::Failed),
            Reply::Fs(FsReply::Flag(false)),
            Reply::Fs(FsReply::Flag(false)),
            // Rename back fails, copy and remove succeed.
            Reply::Fs(FsReply::Failed),
            Reply::Fs(FsReply::Done),
            Reply::Fs(FsReply::Done),
            Reply::Told,
            Reply::Told,
        ],
        |j, r| j.resume(r),
    );
    assert_eq!(result, Ok(()));
    assert_eq!(format!("{:?}", asked[3]), format!("Fs(Stat {{ path: {:?} }})", vault_path));
    assert_eq!(format!("{:?}", asked[4]), format!("Fs(ListXattrs {{ path: {:?} }})", vault_path));
    let tail: Vec<String> = asked[9..].iter().map(|r| format!("{:?}", r)).collect();
    assert_eq!(
        tail,
        vec![
            format!("Fs(Rename {{ from: {:?}, to: \"/d/a\" }})", vault_path),
            format!("Fs(CopyFile {{ from: {:?}, to: \"/d/a\" }})", vault_path),
            format!("Fs(RemoveFile {{ path: {:?} }})", vault_path),
            String::from("Tell(ReflinkUnsupported)"),
            String::from("Tell(Skipped { path: \"/d/a\" })"),
        ]
    );
    assert!(!asked.iter().any(|r| matches!(r, Request::Store(_))), "no count for a group given up");
}

#[test]
fn index_file_passes_vaulted_and_unreadable_files_over() {
    let (asked, result) =
        script_run(index_file("/d/f"), vec![Reply::Fs(FsReply::Failed)], |j, r| j.resume(r));
    assert_eq!(result, None);
    assert_eq!(asked.len(), 1);
    let (asked, result) = script_run(
        index_file("/d/f"),
        vec![Reply::Fs(stat(0)), Reply::Store(StoreReply::Flag(true))],
        |j, r| j.resume(r),
    );
    assert_eq!(result, None);
    assert!(matches!(&asked[1], Request::Store(StoreRequest::IsInodeVaulted { inode: 9 })));
    // A store that fails to answer does not stop the hashing.
    let (asked, result) = script_run(
        index_file("/d/f"),
        vec![
            Reply::Fs(stat(0)),
            Reply::Store(StoreReply::Failed),
            Reply::Fs(FsReply::Bytes(b"abc".to_vec())),
            Reply::Fs(FsReply::Bytes(vec![])),
            Reply::Fs(FsReply::Bytes(b"abc".to_vec())),
            Reply::Fs(FsReply::Bytes(vec![])),
            Reply::Fs(FsReply::Failed),
            Reply::Store(StoreReply::Failed),
        ],
        |j, r| j.resume(r),
    );
    assert_eq!(result, Some(*blake3::hash(b"abc").as_bytes()));
    match asked.last() {
        Some(Request::Store(StoreRequest::UpsertFile { path, metadata })) => {
            assert_eq!(path, "/d/f");
            assert_eq!((metadata.size, metadata.modified), (3, 0));
            assert_eq!(metadata.hash, *blake3::hash(b"abc").as_bytes());
        }
        other => panic!("{:?}", other),
    }
}

#[test]
fn restore_passes_unknown_files_over() {
    let entries = vec![
        entry("/d", false, None),
        entry("/d/t.imprint_tmp", true, Some(1)),
        entry("/d/unknown", true, Some(1)),
        entry("/d/orphan", true, Some(1)),
        entry("/d/unreadable", true, Some(1)),
    ];
    let metadata = FileMetadata { size: 3, modified: 0, hash: hash_of(5) };
    let (asked, summary) = script_run(
        restore_pipeline("/v", walk_of(entries), false).unwrap(),
        vec![
            Reply::Fs(stat(0)),
            Reply::Store(StoreReply::Flag(false)),
            Reply::Store(StoreReply::Metadata(None)),
            Reply::Fs(stat(0)),
            Reply::Store(StoreReply::Failed),
            Reply::Store(StoreReply::Metadata(Some(metadata))),
            Reply::Fs(FsReply::Flag(false)),
            Reply::Fs(FsReply::Failed),
        ],
        |j, r| j.resume(r),
    );
    assert_eq!(summary, RestoreSummary { restored: 0, bytes: 0 });
    assert!(matches!(&asked[0], Request::Fs(FsRequest::Stat { path }) if path == "/d/unknown"));
    assert!(matches!(
        &asked[6],
        Request::Fs(FsRequest::Exists { path }) if *path == shard_path("/v", &hash_of(5))
    ));
    assert!(matches!(&asked[7], Request::Fs(FsRequest::Stat { path }) if path == "/d/unreadable"));
}

#[test]
fn restore_tells_of_a_failure_and_goes_on() {
    let entries = vec![entry("/d/a", true, Some(3)), entry("/d/b", true, Some(3))];
    let (asked, summary) = script_run(
        restore_pipeline("/v", walk_of(entries), false).unwrap(),
        vec![
            Reply::Fs(stat(0)),
            Reply::Store(StoreReply::Flag(true)),
            Reply::Store(StoreReply::Metadata(None)),
            // The restoration fails at once.
            Reply::Fs(FsReply::Failed),
            Reply::Told,
            // The second file is restored; no digest is known, so no count is touched.
            Reply::Fs(stat(0)),
            Reply::Store(StoreReply::Flag(true)),
            Reply::Store(StoreReply::Failed),
            Reply::Fs(stat(0)),
            Reply::Fs(FsReply::Failed),
            Reply::Fs(FsReply::Flag(false)),
            Reply::Fs(FsReply::Done),
            Reply::Fs(FsReply::Done),
            Reply::Fs(FsReply::Done),
            Reply::Fs(FsReply::Done),
            Reply::Told,
            Reply::Store(StoreReply::Failed),
            Reply::Store(StoreReply::Failed),
        ],
        |j, r| j.resume(r),
    );
    assert_eq!(summary, RestoreSummary { restored: 1, bytes: 3 });
    assert!(matches!(&asked[4], Request::Tell(Report::RestoreFailed { path }) if path == "/d/a"));
    assert!(matches!(&asked[15], Request::Tell(Report::Restored { path }) if path == "/d/b"));
    assert!(matches!(
        &asked[16],
        Request::Store(StoreRequest::UnmarkInodeVaulted { inode: 9 })
    ));
    assert!(matches!(
        &asked[17],
        Request::Store(StoreRequest::RemoveFileFromIndex { path }) if path == "/d/b"
    ));
}
