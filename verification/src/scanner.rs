//! The walker's side: which entries of a walk are logical files, and how
//! files are bucketed by size so that only those that share their size
//! with another are hashed.

use vstd::prelude::*;
use vstd::string::*;
use std::collections::HashMap;
use crate::paths::{is_temp, is_temp_file};

verus! {

broadcast use vstd::std_specs::hash::group_hash_axioms;

/// One entry of a directory walk, as far as the library reads it.
#[derive(Debug, Clone)]
pub struct WalkEntry {
    pub path: String,
    /// The entry is a regular file, not a directory or a symbolic link.
    pub is_file: bool,
    /// The file's size; `None` where its metadata could not be read.
    pub size: Option<u64>,
}

/// What a walk below a root yielded.
#[derive(Debug, Clone)]
pub struct Walk {
    /// The root itself could be read. The entries of a walk whose root
    /// could not be read count for nothing.
    pub root_readable: bool,
    /// The entries that could be read, in the order of the walk. An entry
    /// that could not be read is no entry.
    pub entries: Vec<WalkEntry>,
}

/// Why a walk is no walk.
#[derive(Debug, Clone, Copy, PartialEq, Eq, Structural)]
pub enum WalkError {
    /// The root is missing, or cannot be read.
    RootUnreadable,
}

/// The entry is a logical file of the tree: a regular file whose metadata
/// could be read and whose name is no staging name.
pub open spec fn admitted(entry: WalkEntry) -> bool {
    entry.is_file && !is_temp(entry.path@) && entry.size.is_some()
}

/// The paths of the admitted entries, in the order of the walk.
pub open spec fn scanned(entries: Seq<WalkEntry>) -> Seq<Seq<char>>
    decreases entries.len(),
{
    if entries.len() == 0 {
        Seq::empty()
    } else if admitted(entries.last()) {
        scanned(entries.drop_last()).push(entries.last().path@)
    } else {
        scanned(entries.drop_last())
    }
}

/// The paths of the admitted entries of size `size`, in the order of the
/// walk.
pub open spec fn scanned_of_size(entries: Seq<WalkEntry>, size: u64) -> Seq<Seq<char>>
    decreases entries.len(),
{
    if entries.len() == 0 {
        Seq::empty()
    } else if admitted(entries.last()) && entries.last().size == Some(size) {
        scanned_of_size(entries.drop_last(), size).push(entries.last().path@)
    } else {
        scanned_of_size(entries.drop_last(), size)
    }
}

/// The twins of a list of paths, in order.
pub open spec fn paths_view(paths: Seq<String>) -> Seq<Seq<char>> {
    paths.map_values(|p: String| p@)
}

impl WalkEntry {
    /// Whether the entry is a logical file of the tree.
    pub fn is_admitted(&self) -> (yes: bool)
        ensures
            yes == admitted(*self),
    {
        self.is_file && !is_temp_file(self.path.as_str()) && self.size.is_some()
    }
}

/// `path` is the path of an admitted entry.
pub open spec fn is_admitted_path(entries: Seq<WalkEntry>, path: Seq<char>) -> bool {
    exists|k: int| 0 <= k < entries.len() && admitted(#[trigger] entries[k]) && entries[k].path@ == path
}

/// No staging name is among the scanned paths, and every scanned path is
/// the path of an admitted entry.
pub proof fn lemma_scanned_excludes_temp(entries: Seq<WalkEntry>)
    ensures
        forall|i: int|
            0 <= i < scanned(entries).len() ==> !is_temp(#[trigger] scanned(entries)[i]),
        forall|i: int|
            0 <= i < scanned(entries).len() ==> is_admitted_path(
                entries,
                #[trigger] scanned(entries)[i],
            ),
    decreases entries.len(),
{
    if entries.len() > 0 {
        let rest = entries.drop_last();
        lemma_scanned_excludes_temp(rest);
        assert forall|i: int| 0 <= i < scanned(entries).len() implies is_admitted_path(
            entries,
            #[trigger] scanned(entries)[i],
        ) && !is_temp(scanned(entries)[i]) by {
            if i < scanned(rest).len() {
                assert(is_admitted_path(rest, scanned(rest)[i]));
                let k = choose|k: int|
                    0 <= k < rest.len() && admitted(#[trigger] rest[k]) && rest[k].path@
                        == scanned(rest)[i];
                assert(entries[k] == rest[k]);
            } else {
                assert(entries[entries.len() - 1] == entries.last());
            }
        }
    }
}

/// The paths of the entries that are logical files, in the order of the
/// entries.
fn scan_entries(entries: &Vec<WalkEntry>) -> (paths: Vec<String>)
    ensures
        paths_view(paths@) == scanned(entries@),
        forall|i: int| 0 <= i < paths.len() ==> !is_temp(#[trigger] paths[i]@),
{
    let mut paths: Vec<String> = Vec::new();
    let mut i: usize = 0;
    assert(entries@.subrange(0, 0) =~= Seq::empty());
    assert(paths_view(paths@) =~= Seq::empty());
    while i < entries.len()
        invariant
            i <= entries.len(),
            paths_view(paths@) == scanned(entries@.subrange(0, i as int)),
        decreases entries.len() - i,
    {
        let ghost before = paths@;
        let ghost seen = entries@.subrange(0, i + 1);
        assert(seen.drop_last() =~= entries@.subrange(0, i as int));
        assert(seen.last() == entries@[i as int]);
        if entries[i].is_admitted() {
            paths.push(entries[i].path.clone());
            assert(paths_view(paths@) =~= paths_view(before).push(entries@[i as int].path@));
        }
        i += 1;
    }
    assert(entries@.subrange(0, i as int) =~= entries@);
    proof {
        lemma_scanned_excludes_temp(entries@);
        assert forall|i: int| 0 <= i < paths.len() implies !is_temp(#[trigger] paths[i]@) by {
            assert(paths_view(paths@)[i] == paths[i]@);
        }
    }
    paths
}

/// The paths that a walk yields: those of its regular files, without the
/// staging names and without the files whose metadata cannot be read, in
/// the order of the walk. A root that cannot be read is an error, and then
/// no path is yielded; an entry that cannot be read is passed over.
pub fn stream_scan(walk: &Walk) -> (result: Result<Vec<String>, WalkError>)
    ensures
        match result {
            Ok(paths) => {
                &&& walk.root_readable
                &&& paths_view(paths@) == scanned(walk.entries@)
                &&& forall|i: int| 0 <= i < paths.len() ==> !is_temp(#[trigger] paths[i]@)
            },
            Err(error) => !walk.root_readable && error == WalkError::RootUnreadable,
        },
{
    if !walk.root_readable {
        return Err(WalkError::RootUnreadable);
    }
    Ok(scan_entries(&walk.entries))
}

/// A file that has arrived at the coordinator, with the number of its
/// arrival: the number of files that arrived before it.
#[derive(Debug, Clone)]
pub struct Arrived {
    pub path: String,
    pub arrival: u64,
}

/// The mathematical twin of [`Arrived`].
pub struct ArrivedView {
    pub path: Seq<char>,
    pub arrival: u64,
}

impl View for Arrived {
    type V = ArrivedView;

    open spec fn view(&self) -> ArrivedView {
        ArrivedView { path: self.path@, arrival: self.arrival }
    }
}

/// The twins of a list of arrived files, in order.
pub open spec fn arrived_view(files: Seq<Arrived>) -> Seq<ArrivedView> {
    files.map_values(|f: Arrived| f@)
}

/// The paths of a list of arrived files, in order.
pub open spec fn arrived_paths(files: Seq<ArrivedView>) -> Seq<Seq<char>> {
    files.map_values(|f: ArrivedView| f.path)
}

/// The files of one size, in the order in which they arrived.
#[derive(Debug)]
pub struct SizeBucket {
    pub size: u64,
    pub files: Vec<Arrived>,
}

/// What the arrival of a file means for hashing.
#[derive(Debug)]
pub enum Dispatch {
    /// The file is the first of its size: it waits.
    Hold,
    /// The file is the second of its size: the first, which waited, and
    /// the file itself are to be hashed.
    Pair(Arrived, Arrived),
    /// The file is a later one of its size: it is to be hashed.
    One(Arrived),
}

/// The mathematical twin of [`Dispatch`].
pub enum DispatchView {
    Hold,
    Pair(ArrivedView, ArrivedView),
    One(ArrivedView),
}

impl View for Dispatch {
    type V = DispatchView;

    open spec fn view(&self) -> DispatchView {
        match *self {
            Dispatch::Hold => DispatchView::Hold,
            Dispatch::Pair(first, second) => DispatchView::Pair(first@, second@),
            Dispatch::One(file) => DispatchView::One(file@),
        }
    }
}

/// What the arrival of `file` means when `before` are the files of its
/// size that arrived earlier.
pub open spec fn dispatch_of(before: Seq<ArrivedView>, file: ArrivedView) -> DispatchView {
    if before.len() == 0 {
        DispatchView::Hold
    } else if before.len() == 1 {
        DispatchView::Pair(before[0], file)
    } else {
        DispatchView::One(file)
    }
}

/// The number of arrivals after one more: counting stops at `u64::MAX`.
pub open spec fn one_more(seen: u64) -> u64 {
    if seen < u64::MAX {
        (seen + 1) as u64
    } else {
        seen
    }
}

/// The files carry the numbers of their arrival: each number is below
/// `seen`, and of two files the earlier has the smaller number.
pub open spec fn numbered_below(files: Seq<ArrivedView>, seen: u64) -> bool {
    &&& forall|i: int| 0 <= i < files.len() ==> (#[trigger] files[i]).arrival < seen
    &&& forall|i: int, j: int| 0 <= i < j < files.len() ==> files[i].arrival < files[j].arrival
}

/// The files seen so far, bucketed by size.
pub struct SizeIndex {
    slots: HashMap<u64, usize>,
    buckets: Vec<SizeBucket>,
    seen: u64,
}

impl SizeIndex {
    #[verifier::type_invariant]
    spec fn slots_point_at_their_numbered_buckets(self) -> bool {
        forall|size: u64| #[trigger]
            self.slots@.contains_key(size) ==> self.slots@[size] < self.buckets.len()
                && self.buckets[self.slots@[size] as int].size == size
                && self.buckets[self.slots@[size] as int].files.len() > 0 && (self.seen
                < u64::MAX ==> numbered_below(
                arrived_view(self.buckets[self.slots@[size] as int].files@),
                self.seen,
            ))
    }

    /// Until `u64::MAX` files have arrived, the files of every size carry
    /// the numbers of their arrival, in order.
    pub open spec fn is_numbered(&self) -> bool {
        self.seen() < u64::MAX ==> forall|size: u64|
            numbered_below(#[trigger] self.files_of(size), self.seen())
    }

    /// The number of files that have arrived.
    pub closed spec fn seen(&self) -> u64 {
        self.seen
    }

    /// The files of size `size`, in the order in which they arrived, each
    /// with the number of its arrival.
    pub closed spec fn files_of(&self, size: u64) -> Seq<ArrivedView> {
        if self.slots@.contains_key(size) {
            arrived_view(self.buckets[self.slots@[size] as int].files@)
        } else {
            Seq::empty()
        }
    }

    /// The paths of the files of size `size`, in the order in which they
    /// arrived.
    pub open spec fn paths_of(&self, size: u64) -> Seq<Seq<char>> {
        arrived_paths(self.files_of(size))
    }

    /// An index that has seen no file.
    pub fn new() -> (index: Self)
        ensures
            index.seen() == 0,
            forall|size: u64| index.files_of(size) == Seq::<ArrivedView>::empty(),
            index.is_numbered(),
    {
        SizeIndex { slots: HashMap::new(), buckets: Vec::new(), seen: 0 }
    }

    /// Takes in a file of size `size`, gives it the number of its arrival,
    /// and says what is to be hashed on its account.
    pub fn insert(self, path: String, size: u64) -> (next: (SizeIndex, Dispatch))
        ensures
            next.1@ == dispatch_of(
                self.files_of(size),
                ArrivedView { path: path@, arrival: self.seen() },
            ),
            next.0.files_of(size) == self.files_of(size).push(
                ArrivedView { path: path@, arrival: self.seen() },
            ),
            forall|other: u64| other != size ==> next.0.files_of(other) == self.files_of(other),
            next.0.seen() == one_more(self.seen()),
            self.is_numbered(),
            next.0.is_numbered(),
    {
        proof {
            use_type_invariant(&self);
        }
        let ghost earlier = self;
        let SizeIndex { mut slots, mut buckets, seen } = self;
        let ghost arrival = seen;
        let file = Arrived { path, arrival: seen };
        let seen = if seen < u64::MAX {
            seen + 1
        } else {
            seen
        };
        let found = match slots.get(&size) {
            Some(slot) => Some(*slot),
            None => None,
        };
        match found {
            Some(slot) => {
                let ghost before = buckets[slot as int].files@;
                let again = Arrived { path: file.path.clone(), arrival: file.arrival };
                let dispatch = if buckets[slot].files.len() == 1 {
                    let first = &buckets[slot].files[0];
                    Dispatch::Pair(
                        Arrived { path: first.path.clone(), arrival: first.arrival },
                        again,
                    )
                } else {
                    Dispatch::One(again)
                };
                buckets[slot].files.push(file);
                assert(arrived_view(buckets[slot as int].files@) =~= arrived_view(before).push(
                    file@,
                ));
                let next = SizeIndex { slots, buckets, seen };
                proof {
                    use_type_invariant(&next);
                }
                (next, dispatch)
            },
            None => {
                let slot = buckets.len();
                let mut files: Vec<Arrived> = Vec::new();
                files.push(file);
                assert(arrived_view(files@) =~= Seq::<ArrivedView>::empty().push(file@));
                buckets.push(SizeBucket { size, files });
                slots.insert(size, slot);
                let next = SizeIndex { slots, buckets, seen };
                proof {
                    use_type_invariant(&next);
                }
                (next, Dispatch::Hold)
            },
        }
    }

    /// The paths of the files of size `size` that the index has seen, in
    /// the order in which they arrived.
    pub fn get(&self, size: u64) -> (paths: Vec<String>)
        ensures
            paths_view(paths@) == self.paths_of(size),
    {
        proof {
            use_type_invariant(self);
        }
        let mut paths: Vec<String> = Vec::new();
        match self.slots.get(&size) {
            Some(slot) => {
                let files = &self.buckets[*slot].files;
                let mut i: usize = 0;
                while i < files.len()
                    invariant
                        i <= files.len(),
                        paths_view(paths@) == arrived_paths(arrived_view(files@)).subrange(
                            0,
                            i as int,
                        ),
                    decreases files.len() - i,
                {
                    let ghost before = paths@;
                    paths.push(files[i].path.clone());
                    assert(paths_view(paths@) =~= paths_view(before).push(files@[i as int].path@));
                    assert(paths_view(paths@) =~= arrived_paths(arrived_view(files@)).subrange(
                        0,
                        i + 1,
                    ));
                    i += 1;
                }
                assert(paths_view(paths@) =~= arrived_paths(arrived_view(files@)));
            },
            None => {
                assert(paths_view(paths@) =~= arrived_paths(Seq::<ArrivedView>::empty()));
            },
        }
        paths
    }
}

/// Buckets the logical files of a walk by their size. A root that cannot
/// be read is an error.
pub fn group_by_size(walk: &Walk) -> (result: Result<SizeIndex, WalkError>)
    ensures
        match result {
            Ok(index) => walk.root_readable && forall|size: u64|
                index.paths_of(size) == scanned_of_size(walk.entries@, size),
            Err(error) => !walk.root_readable && error == WalkError::RootUnreadable,
        },
{
    if !walk.root_readable {
        return Err(WalkError::RootUnreadable);
    }
    let entries = &walk.entries;
    let mut index = SizeIndex::new();
    let mut i: usize = 0;
    assert(entries@.subrange(0, 0) =~= Seq::empty());
    assert forall|size: u64| index.paths_of(size) == scanned_of_size(
        entries@.subrange(0, 0),
        size,
    ) by {
        assert(arrived_paths(index.files_of(size)) =~= Seq::<Seq<char>>::empty());
    }
    while i < entries.len()
        invariant
            i <= entries.len(),
            forall|size: u64|
                index.paths_of(size) == scanned_of_size(entries@.subrange(0, i as int), size),
        decreases entries.len() - i,
    {
        let ghost seen = entries@.subrange(0, i + 1);
        assert(seen.drop_last() =~= entries@.subrange(0, i as int));
        assert(seen.last() == entries@[i as int]);
        let ghost earlier = index;
        if entries[i].is_admitted() {
            let size = entries[i].size.unwrap();
            let (next, _) = index.insert(entries[i].path.clone(), size);
            index = next;
            assert(arrived_paths(index.files_of(size)) =~= arrived_paths(
                earlier.files_of(size),
            ).push(entries@[i as int].path@));
        }
        assert forall|size: u64| index.paths_of(size) == scanned_of_size(seen, size) by {
            assert(earlier.paths_of(size) == scanned_of_size(seen.drop_last(), size));
        }
        i += 1;
    }
    assert(entries@.subrange(0, i as int) =~= entries@);
    Ok(index)
}

/// A file that arrives at the coordinator: its path and its size.
pub struct Arrival {
    pub path: Seq<char>,
    pub size: u64,
}

/// The files of size `size` among the arrivals, in order, each with the
/// number of its arrival: its index among all arrivals.
pub open spec fn arrived_of_size(arrivals: Seq<Arrival>, size: u64) -> Seq<ArrivedView>
    decreases arrivals.len(),
{
    if arrivals.len() == 0 {
        Seq::empty()
    } else if arrivals.last().size == size {
        arrived_of_size(arrivals.drop_last(), size).push(
            ArrivedView { path: arrivals.last().path, arrival: (arrivals.len() - 1) as u64 },
        )
    } else {
        arrived_of_size(arrivals.drop_last(), size)
    }
}

/// The files that a dispatch sends to hashing, in order.
pub open spec fn dispatch_files(dispatch: DispatchView) -> Seq<ArrivedView> {
    match dispatch {
        DispatchView::Hold => Seq::empty(),
        DispatchView::Pair(first, second) => seq![first, second],
        DispatchView::One(file) => seq![file],
    }
}

/// The files of size `size` that have been sent to hashing once the
/// arrivals have been taken in one after the other, in the order in which
/// they were sent.
pub open spec fn dispatched_of_size(arrivals: Seq<Arrival>, size: u64) -> Seq<ArrivedView>
    decreases arrivals.len(),
{
    if arrivals.len() == 0 {
        Seq::empty()
    } else if arrivals.last().size == size {
        dispatched_of_size(arrivals.drop_last(), size) + dispatch_files(
            dispatch_of(
                arrived_of_size(arrivals.drop_last(), size),
                ArrivedView { path: arrivals.last().path, arrival: (arrivals.len() - 1) as u64 },
            ),
        )
    } else {
        dispatched_of_size(arrivals.drop_last(), size)
    }
}

/// A file is sent to hashing if and only if it is not the only one of its
/// size: of a size that two or more files have, all files are sent, in the
/// order of their arrival and each once, with the number of its arrival;
/// of a size that one file has, none.
pub proof fn lemma_dispatched_iff_size_shared(arrivals: Seq<Arrival>, size: u64)
    ensures
        dispatched_of_size(arrivals, size) == if arrived_of_size(arrivals, size).len() >= 2 {
            arrived_of_size(arrivals, size)
        } else {
            Seq::empty()
        },
    decreases arrivals.len(),
{
    if arrivals.len() > 0 {
        let rest = arrivals.drop_last();
        lemma_dispatched_iff_size_shared(rest, size);
        if arrivals.last().size == size {
            let before = arrived_of_size(rest, size);
            let file = ArrivedView {
                path: arrivals.last().path,
                arrival: (arrivals.len() - 1) as u64,
            };
            if before.len() == 1 {
                assert(seq![before[0], file] =~= before.push(file));
                assert(Seq::<ArrivedView>::empty() + seq![before[0], file] =~= before.push(file));
            } else if before.len() >= 2 {
                assert(before + seq![file] =~= before.push(file));
            } else {
                assert(Seq::<ArrivedView>::empty() + Seq::<ArrivedView>::empty() =~= Seq::<
                    ArrivedView,
                >::empty());
            }
        }
    }
}

/// The numbers of arrival grow with the arrivals: of two files of one
/// size, the one that arrived first has the smaller number and stands
/// first.
pub proof fn lemma_arrivals_are_numbered_in_order(arrivals: Seq<Arrival>, size: u64, i: int, j: int)
    requires
        arrivals.len() <= u64::MAX,
        0 <= i < j < arrived_of_size(arrivals, size).len(),
    ensures
        arrived_of_size(arrivals, size)[i].arrival < arrived_of_size(arrivals, size)[j].arrival,
        arrived_of_size(arrivals, size)[j].arrival < arrivals.len(),
    decreases arrivals.len(),
{
    if arrivals.len() > 0 {
        let rest = arrivals.drop_last();
        let before = arrived_of_size(rest, size);
        if arrivals.last().size == size {
            if j < before.len() {
                lemma_arrivals_are_numbered_in_order(rest, size, i, j);
            } else if before.len() > 0 {
                if i > 0 {
                    lemma_arrivals_are_numbered_in_order(rest, size, 0, i);
                } else if before.len() > 1 {
                    lemma_arrivals_are_numbered_in_order(rest, size, 0, 1);
                } else {
                    lemma_arrival_numbers_are_indices(rest, size, 0);
                }
            }
        } else {
            lemma_arrivals_are_numbered_in_order(rest, size, i, j);
        }
    }
}

proof fn lemma_arrival_numbers_are_indices(arrivals: Seq<Arrival>, size: u64, i: int)
    requires
        arrivals.len() <= u64::MAX,
        0 <= i < arrived_of_size(arrivals, size).len(),
    ensures
        arrived_of_size(arrivals, size)[i].arrival < arrivals.len(),
    decreases arrivals.len(),
{
    if arrivals.len() > 0 {
        let rest = arrivals.drop_last();
        if i < arrived_of_size(rest, size).len() {
            lemma_arrival_numbers_are_indices(rest, size, i);
        }
    }
}

} // verus!
