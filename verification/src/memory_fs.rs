//! The virtual filesystem: a concurrently shareable store of path -> byte
//! content entries and path -> existence markers for directories, standing in
//! for a real disk during one build.
//!
//! The store is modeled as a map from path (a sequence of characters) to byte
//! content, plus a set of directory paths. Directory existence is a flat
//! marker keyed by the full path: there is no hierarchical containment, and
//! removing a directory removes only the exact matching entry.
//!
//! Every mutation is one atomic update of the model map or set. The blocking
//! and suspending call conventions that share one instance both serialize
//! their operations per map (one lock per map), so concurrent calls take
//! effect in some total order of these atomic updates; the laws below are
//! therefore stated over the model transitions.

use vstd::prelude::*;

verus! {

/// The only failure a filesystem operation surfaces: the path was absent
/// from the map the operation consulted.
#[derive(Debug, Clone, Copy, PartialEq, Eq, Structural)]
pub enum FsError {
    NotFound,
}

/// Model transition: writing `content` at `path` inserts or overwrites the
/// entry; the last write wins.
pub open spec fn spec_write(
    files: Map<Seq<char>, Seq<u8>>,
    path: Seq<char>,
    content: Seq<u8>,
) -> Map<Seq<char>, Seq<u8>> {
    files.insert(path, content)
}

/// Model observation: reading `path` returns its content when present,
/// nothing when absent.
pub open spec fn spec_read(files: Map<Seq<char>, Seq<u8>>, path: Seq<char>) -> Option<Seq<u8>> {
    if files.contains_key(path) {
        Some(files[path])
    } else {
        None
    }
}

/// Model transition: removing a file drops exactly that entry.
pub open spec fn spec_remove_file(
    files: Map<Seq<char>, Seq<u8>>,
    path: Seq<char>,
) -> Map<Seq<char>, Seq<u8>> {
    files.remove(path)
}

/// Model transition: creating a directory marks exactly that path as existing.
pub open spec fn spec_create_dir(dirs: Set<Seq<char>>, path: Seq<char>) -> Set<Seq<char>> {
    dirs.insert(path)
}

/// Model transition: removing a directory drops exactly that marker; nothing
/// logically "under" it is touched (the model has no hierarchy).
pub open spec fn spec_remove_dir(dirs: Set<Seq<char>>, path: Seq<char>) -> Set<Seq<char>> {
    dirs.remove(path)
}

/// The map a sequence of (path, content) entries denotes; later entries win.
pub open spec fn assoc_map(entries: Seq<(String, Vec<u8>)>) -> Map<Seq<char>, Seq<u8>>
    decreases entries.len(),
{
    if entries.len() == 0 {
        Map::empty()
    } else {
        assoc_map(entries.drop_last()).insert(entries.last().0@, entries.last().1@)
    }
}

/// The set of paths a sequence of path strings denotes.
pub open spec fn path_set(paths: Seq<String>) -> Set<Seq<char>>
    decreases paths.len(),
{
    if paths.len() == 0 {
        Set::empty()
    } else {
        path_set(paths.drop_last()).insert(paths.last()@)
    }
}

/// No two entries share a path.
pub open spec fn unique_keys(entries: Seq<(String, Vec<u8>)>) -> bool {
    forall|i: int, j: int|
        0 <= i < j < entries.len() ==> entries[i].0@ != entries[j].0@
}

/// No two directory markers share a path.
pub open spec fn unique_paths(paths: Seq<String>) -> bool {
    forall|i: int, j: int| 0 <= i < j < paths.len() ==> paths[i]@ != paths[j]@
}

/// An in-memory filesystem scoped to one build: created empty, filled by the
/// build pipeline's emission calls, drained once into a snapshot, then
/// discarded.
pub struct MockFileSystem {
    files: Vec<(String, Vec<u8>)>,
    directories: Vec<String>,
}

impl MockFileSystem {
    /// Internal representation invariant: entry keys are unique, so the
    /// association list denotes its map faithfully.
    pub closed spec fn wf(&self) -> bool {
        unique_keys(self.files@) && unique_paths(self.directories@)
    }

    /// The file store this instance holds: path -> byte content.
    pub closed spec fn files_view(&self) -> Map<Seq<char>, Seq<u8>> {
        assoc_map(self.files@)
    }

    /// The set of directory paths marked as existing.
    pub closed spec fn dirs_view(&self) -> Set<Seq<char>> {
        path_set(self.directories@)
    }

    /// A fresh, empty filesystem for one build.
    pub fn new() -> (r: Self)
        ensures
            r.wf(),
            r.files_view() == Map::<Seq<char>, Seq<u8>>::empty(),
            r.dirs_view() == Set::<Seq<char>>::empty(),
    {
        MockFileSystem { files: Vec::new(), directories: Vec::new() }
    }

    /// Index of the entry holding `path`, if any.
    fn find_file(&self, path: &String) -> (r: Option<usize>)
        ensures
            match r {
                Some(i) => i < self.files@.len() && self.files@[i as int].0@ == path@,
                None => forall|i: int|
                    0 <= i < self.files@.len() ==> self.files@[i].0@ != path@,
            },
    {
        let mut i: usize = 0;
        while i < self.files.len()
            invariant
                i <= self.files@.len(),
                forall|j: int| 0 <= j < i ==> self.files@[j].0@ != path@,
            decreases self.files@.len() - i,
        {
            if self.files[i].0 == *path {
                return Some(i);
            }
            i = i + 1;
        }
        None
    }

    /// Index of the directory marker holding `path`, if any.
    fn find_dir(&self, path: &String) -> (r: Option<usize>)
        ensures
            match r {
                Some(i) => i < self.directories@.len() && self.directories@[i as int]@ == path@,
                None => forall|i: int|
                    0 <= i < self.directories@.len() ==> self.directories@[i]@ != path@,
            },
    {
        let mut i: usize = 0;
        while i < self.directories.len()
            invariant
                i <= self.directories@.len(),
                forall|j: int| 0 <= j < i ==> self.directories@[j]@ != path@,
            decreases self.directories@.len() - i,
        {
            if self.directories[i] == *path {
                return Some(i);
            }
            i = i + 1;
        }
        None
    }

    /// Reads the content stored at `path`; fails with `NotFound` exactly when
    /// no entry exists for it.
    pub fn read(&self, path: &String) -> (r: Result<Vec<u8>, FsError>)
        requires
            self.wf(),
        ensures
            match r {
                Ok(content) => spec_read(self.files_view(), path@) == Some(content@),
                Err(e) => e == FsError::NotFound && spec_read(self.files_view(), path@)
                    == Option::<Seq<u8>>::None,
            },
    {
        match self.find_file(path) {
            Some(i) => {
                let content = self.files[i].1.clone();
                proof {
                    assert(content@ =~= self.files@[i as int].1@);
                    lemma_assoc_map_index(self.files@, i as int);
                }
                Ok(content)
            },
            None => {
                proof {
                    lemma_assoc_map_contains(self.files@, path@);
                }
                Err(FsError::NotFound)
            },
        }
    }

    /// Inserts or overwrites the entry at `path`; the last write wins. The
    /// path's directory need not exist, and the write cannot fail under this
    /// model (no disk exhaustion, no permissions).
    pub fn write(&mut self, path: &String, content: Vec<u8>) -> (r: Result<(), FsError>)
        requires
            old(self).wf(),
        ensures
            final(self).wf(),
            r is Ok,
            final(self).files_view() == spec_write(old(self).files_view(), path@, content@),
            final(self).dirs_view() == old(self).dirs_view(),
    {
        let ghost m = self.files_view();
        match self.find_file(path) {
            Some(i) => {
                proof {
                    lemma_assoc_map_remove(self.files@, i as int);
                }
                let ghost removed = self.files@.remove(i as int);
                let _prev = self.files.remove(i);
                proof {
                    assert forall|j: int| 0 <= j < removed.len() implies removed[j].0@ != path@ by {
                        if j < i {
                            assert(old(self).files@[j].0@ != old(self).files@[i as int].0@);
                        } else {
                            assert(old(self).files@[i as int].0@ != old(self).files@[j + 1].0@);
                        }
                    }
                }
                self.files.push((path.clone(), content));
                proof {
                    assert(self.files@.drop_last() =~= removed);
                    assert(self.files@.last().0@ == path@);
                    assert(unique_keys(self.files@));
                    assert(assoc_map(self.files@) =~= m.insert(path@, content@));
                }
            },
            None => {
                self.files.push((path.clone(), content));
                proof {
                    assert(self.files@.drop_last() =~= old(self).files@);
                    assert(self.files@.last().0@ == path@);
                    assert(unique_keys(self.files@));
                    assert(assoc_map(self.files@) == m.insert(path@, content@));
                }
            },
        }
        Ok(())
    }

    /// Removes the entry at `path`; fails with `NotFound` exactly when the
    /// path is absent, and then changes nothing.
    pub fn remove_file(&mut self, path: &String) -> (r: Result<(), FsError>)
        requires
            old(self).wf(),
        ensures
            final(self).wf(),
            final(self).dirs_view() == old(self).dirs_view(),
            match r {
                Ok(()) => old(self).files_view().contains_key(path@) && final(self).files_view()
                    == spec_remove_file(old(self).files_view(), path@),
                Err(e) => e == FsError::NotFound && !old(self).files_view().contains_key(path@)
                    && final(self).files_view() == old(self).files_view(),
            },
    {
        match self.find_file(path) {
            Some(i) => {
                proof {
                    lemma_assoc_map_index(self.files@, i as int);
                    lemma_assoc_map_remove(self.files@, i as int);
                }
                let _prev = self.files.remove(i);
                Ok(())
            },
            None => {
                proof {
                    lemma_assoc_map_contains(self.files@, path@);
                }
                Err(FsError::NotFound)
            },
        }
    }

    /// Marks `path` as an existing directory. Re-creating an existing
    /// directory is a no-op success, and file entries are never touched.
    pub fn create_dir(&mut self, path: &String) -> (r: Result<(), FsError>)
        requires
            old(self).wf(),
        ensures
            final(self).wf(),
            r is Ok,
            final(self).dirs_view() == spec_create_dir(old(self).dirs_view(), path@),
            final(self).files_view() == old(self).files_view(),
    {
        let ghost d = self.dirs_view();
        match self.find_dir(path) {
            Some(i) => {
                proof {
                    lemma_path_set_contains(self.directories@, path@);
                    assert(d.insert(path@) =~= d);
                }
            },
            None => {
                self.directories.push(path.clone());
                proof {
                    assert(self.directories@.drop_last() =~= old(self).directories@);
                    assert(self.directories@.last()@ == path@);
                    assert(unique_paths(self.directories@));
                    assert(path_set(self.directories@) == d.insert(path@));
                }
            },
        }
        Ok(())
    }

    /// Identical contract to `create_dir`: directory existence is a flat
    /// marker, so no intermediate segments need creating.
    pub fn create_dir_all(&mut self, path: &String) -> (r: Result<(), FsError>)
        requires
            old(self).wf(),
        ensures
            final(self).wf(),
            r is Ok,
            final(self).dirs_view() == spec_create_dir(old(self).dirs_view(), path@),
            final(self).files_view() == old(self).files_view(),
    {
        self.create_dir(path)
    }

    /// Removes exactly the matching directory marker; fails with `NotFound`
    /// when the path is absent from the directory set. File entries logically
    /// "under" the path are never touched: the model has no hierarchical
    /// containment, only flat key equality.
    pub fn remove_dir_all(&mut self, path: &String) -> (r: Result<(), FsError>)
        requires
            old(self).wf(),
        ensures
            final(self).wf(),
            final(self).files_view() == old(self).files_view(),
            match r {
                Ok(()) => old(self).dirs_view().contains(path@) && final(self).dirs_view()
                    == spec_remove_dir(old(self).dirs_view(), path@),
                Err(e) => e == FsError::NotFound && !old(self).dirs_view().contains(path@)
                    && final(self).dirs_view() == old(self).dirs_view(),
            },
    {
        match self.find_dir(path) {
            Some(i) => {
                proof {
                    lemma_path_set_contains(self.directories@, path@);
                    lemma_path_set_remove(self.directories@, i as int);
                }
                let _prev = self.directories.remove(i);
                Ok(())
            },
            None => {
                proof {
                    lemma_path_set_contains(self.directories@, path@);
                }
                Err(FsError::NotFound)
            },
        }
    }

    /// Drains this instance into an immutable snapshot of its file contents.
    /// The instance is consumed: no entry outlives it.
    pub fn into_snapshot(self) -> (s: Snapshot)
        requires
            self.wf(),
        ensures
            s.wf(),
            s@ == self.files_view(),
    {
        Snapshot { entries: self.files }
    }
}

/// An immutable point-in-time copy of a filesystem's file contents, handed to
/// the caller after a build completes. Owned solely by that caller and
/// independent of the filesystem instance it was drained from.
pub struct Snapshot {
    entries: Vec<(String, Vec<u8>)>,
}

impl View for Snapshot {
    type V = Map<Seq<char>, Seq<u8>>;

    /// The mapping from path to byte content this snapshot holds.
    closed spec fn view(&self) -> Map<Seq<char>, Seq<u8>> {
        assoc_map(self.entries@)
    }
}

impl Snapshot {
    /// Internal representation invariant: entry keys are unique.
    pub closed spec fn wf(&self) -> bool {
        unique_keys(self.entries@)
    }

    /// The content stored at `path`, if any.
    pub fn get(&self, path: &String) -> (r: Option<&Vec<u8>>)
        requires
            self.wf(),
        ensures
            match r {
                Some(content) => self@.contains_key(path@) && content@ == self@[path@],
                None => !self@.contains_key(path@),
            },
    {
        let mut i: usize = 0;
        while i < self.entries.len()
            invariant
                self.wf(),
                i <= self.entries@.len(),
                forall|j: int| 0 <= j < i ==> self.entries@[j].0@ != path@,
            decreases self.entries@.len() - i,
        {
            if self.entries[i].0 == *path {
                proof {
                    lemma_assoc_map_index(self.entries@, i as int);
                }
                return Some(&self.entries[i].1);
            }
            i = i + 1;
        }
        proof {
            lemma_assoc_map_contains(self.entries@, path@);
        }
        None
    }

    /// The snapshot's contents as one vector of (path, content) pairs, each
    /// path exactly once, denoting exactly the snapshot's mapping.
    pub fn into_entries(self) -> (r: Vec<(String, Vec<u8>)>)
        requires
            self.wf(),
        ensures
            unique_keys(r@),
            assoc_map(r@) == self@,
    {
        self.entries
    }

    /// How many paths the snapshot holds.
    pub fn len(&self) -> (r: usize)
        requires
            self.wf(),
        ensures
            r == self@.dom().len(),
    {
        proof {
            lemma_assoc_map_dom_len(self.entries@);
        }
        self.entries.len()
    }
}

/// Law: a write followed by a read of the same path returns exactly the
/// written content, for every prior store, path and byte sequence.
pub proof fn lemma_write_read_round_trip(
    files: Map<Seq<char>, Seq<u8>>,
    path: Seq<char>,
    content: Seq<u8>,
)
    ensures
        spec_read(spec_write(files, path, content), path) == Some(content),
{
}

/// Law: reading a path the store does not contain observes nothing, so the
/// read fails with `NotFound`.
pub proof fn lemma_read_unwritten(files: Map<Seq<char>, Seq<u8>>, path: Seq<char>)
    requires
        !files.contains_key(path),
    ensures
        spec_read(files, path) == Option::<Seq<u8>>::None,
{
}

/// One mutation of an instance's file map over its lifetime. Directory
/// operations are absent deliberately: their contracts show they never touch
/// the file map.
pub enum FileOp {
    /// A write of `content` at `path`.
    Write { path: Seq<char>, content: Seq<u8> },
    /// A removal of the entry at `path` (a no-op transition when absent).
    RemoveFile { path: Seq<char> },
}

/// The file map an instance holds after its history of mutations, starting
/// from the empty store it is created with.
pub open spec fn apply_file_ops(ops: Seq<FileOp>) -> Map<Seq<char>, Seq<u8>>
    decreases ops.len(),
{
    if ops.len() == 0 {
        Map::empty()
    } else {
        match ops.last() {
            FileOp::Write { path, content } => spec_write(
                apply_file_ops(ops.drop_last()),
                path,
                content,
            ),
            FileOp::RemoveFile { path } => spec_remove_file(apply_file_ops(ops.drop_last()), path),
        }
    }
}

/// Whether an operation writes `path`.
pub open spec fn writes_path(op: FileOp, path: Seq<char>) -> bool {
    op matches FileOp::Write { path: p, .. } && p == path
}

/// Law: on an instance where `path` was never written — no operation in the
/// instance's whole history is a write to it — a read of `path` fails with
/// `NotFound`.
pub proof fn lemma_read_never_written(ops: Seq<FileOp>, path: Seq<char>)
    requires
        forall|i: int| 0 <= i < ops.len() ==> !writes_path(ops[i], path),
    ensures
        spec_read(apply_file_ops(ops), path) == Option::<Seq<u8>>::None,
    decreases ops.len(),
{
    if ops.len() > 0 {
        assert(forall|i: int| 0 <= i < ops.drop_last().len() ==> !writes_path(
            ops.drop_last()[i],
            path,
        ));
        lemma_read_never_written(ops.drop_last(), path);
        assert(!writes_path(ops.last(), path));
        lemma_read_unwritten(apply_file_ops(ops), path);
    }
}

/// Law: creating a directory twice is the same as creating it once, so the
/// second creation is a no-op success. The exec operation's contract adds
/// that file entries are never touched by directory creation.
pub proof fn lemma_create_dir_idempotent(dirs: Set<Seq<char>>, path: Seq<char>)
    ensures
        spec_create_dir(spec_create_dir(dirs, path), path) == spec_create_dir(dirs, path),
{
    assert(spec_create_dir(spec_create_dir(dirs, path), path) =~= spec_create_dir(dirs, path));
}

/// Law: after a file is removed, a read of its path observes nothing, so it
/// fails with `NotFound`.
pub proof fn lemma_remove_file_then_read(files: Map<Seq<char>, Seq<u8>>, path: Seq<char>)
    ensures
        spec_read(spec_remove_file(files, path), path) == Option::<Seq<u8>>::None,
{
}

/// Law: no torn writes. Each write is one atomic update of the store, and
/// writes to one instance are serialized, so two concurrent writes to the
/// same path take effect in one of the two orders below; either way a
/// subsequent read returns one of the two contents whole, never a mixture.
pub proof fn lemma_serialized_writes_no_tearing(
    files: Map<Seq<char>, Seq<u8>>,
    path: Seq<char>,
    c1: Seq<u8>,
    c2: Seq<u8>,
)
    ensures
        spec_read(spec_write(spec_write(files, path, c1), path, c2), path) == Some(c2),
        spec_read(spec_write(spec_write(files, path, c2), path, c1), path) == Some(c1),
{
}

/// A key occurs in the denoted map exactly when some entry holds it.
pub proof fn lemma_assoc_map_contains(entries: Seq<(String, Vec<u8>)>, path: Seq<char>)
    ensures
        assoc_map(entries).contains_key(path) <==> exists|i: int|
            0 <= i < entries.len() && entries[i].0@ == path,
    decreases entries.len(),
{
    if entries.len() > 0 {
        lemma_assoc_map_contains(entries.drop_last(), path);
        if entries.last().0@ == path {
            assert(entries[entries.len() - 1].0@ == path);
        } else {
            if assoc_map(entries).contains_key(path) {
                let i = choose|i: int|
                    0 <= i < entries.drop_last().len() && entries.drop_last()[i].0@ == path;
                assert(entries[i].0@ == path);
            }
            if exists|i: int| 0 <= i < entries.len() && entries[i].0@ == path {
                let i = choose|i: int| 0 <= i < entries.len() && entries[i].0@ == path;
                assert(i < entries.len() - 1);
                assert(entries.drop_last()[i].0@ == path);
            }
        }
    }
}

/// Under unique keys, removing the entry at index `i` removes exactly its
/// path from the denoted map, and keys stay unique.
pub proof fn lemma_assoc_map_remove(entries: Seq<(String, Vec<u8>)>, i: int)
    requires
        unique_keys(entries),
        0 <= i < entries.len(),
    ensures
        unique_keys(entries.remove(i)),
        assoc_map(entries.remove(i)) == assoc_map(entries).remove(entries[i].0@),
    decreases entries.len(),
{
    let key = entries[i].0@;
    assert(unique_keys(entries.remove(i)));
    if i == entries.len() - 1 {
        assert(entries.remove(i) =~= entries.drop_last());
        lemma_assoc_map_contains(entries.drop_last(), key);
        assert(!assoc_map(entries.drop_last()).contains_key(key));
        assert(assoc_map(entries.drop_last()) =~= assoc_map(entries).remove(key));
    } else {
        let dl = entries.drop_last();
        assert(unique_keys(dl));
        lemma_assoc_map_remove(dl, i);
        assert(entries.remove(i).drop_last() =~= dl.remove(i));
        assert(entries.remove(i).last() == entries.last());
        assert(assoc_map(entries.remove(i)) == assoc_map(dl.remove(i)).insert(
            entries.last().0@,
            entries.last().1@,
        ));
        assert(key != entries.last().0@);
        assert(assoc_map(dl).remove(key).insert(entries.last().0@, entries.last().1@)
            =~= assoc_map(dl).insert(entries.last().0@, entries.last().1@).remove(key));
    }
}

/// A path occurs in the denoted set exactly when some marker holds it.
pub proof fn lemma_path_set_contains(paths: Seq<String>, path: Seq<char>)
    ensures
        path_set(paths).contains(path) <==> exists|i: int|
            0 <= i < paths.len() && paths[i]@ == path,
    decreases paths.len(),
{
    if paths.len() > 0 {
        lemma_path_set_contains(paths.drop_last(), path);
        if paths.last()@ == path {
            assert(paths[paths.len() - 1]@ == path);
        } else {
            if path_set(paths).contains(path) {
                let i = choose|i: int|
                    0 <= i < paths.drop_last().len() && paths.drop_last()[i]@ == path;
                assert(paths[i]@ == path);
            }
            if exists|i: int| 0 <= i < paths.len() && paths[i]@ == path {
                let i = choose|i: int| 0 <= i < paths.len() && paths[i]@ == path;
                assert(i < paths.len() - 1);
                assert(paths.drop_last()[i]@ == path);
            }
        }
    }
}

/// Under unique markers, removing the marker at index `i` removes exactly its
/// path from the denoted set, and markers stay unique.
pub proof fn lemma_path_set_remove(paths: Seq<String>, i: int)
    requires
        unique_paths(paths),
        0 <= i < paths.len(),
    ensures
        unique_paths(paths.remove(i)),
        path_set(paths.remove(i)) == path_set(paths).remove(paths[i]@),
    decreases paths.len(),
{
    let key = paths[i]@;
    assert(unique_paths(paths.remove(i)));
    if i == paths.len() - 1 {
        assert(paths.remove(i) =~= paths.drop_last());
        lemma_path_set_contains(paths.drop_last(), key);
        assert(!path_set(paths.drop_last()).contains(key));
        assert(path_set(paths.drop_last()) =~= path_set(paths).remove(key));
    } else {
        let dl = paths.drop_last();
        assert(unique_paths(dl));
        lemma_path_set_remove(dl, i);
        assert(paths.remove(i).drop_last() =~= dl.remove(i));
        assert(paths.remove(i).last() == paths.last());
        assert(path_set(paths.remove(i)) == path_set(dl.remove(i)).insert(paths.last()@));
        assert(key != paths.last()@);
        assert(path_set(dl).remove(key).insert(paths.last()@) =~= path_set(dl).insert(
            paths.last()@,
        ).remove(key));
    }
}

/// Under unique keys, the denoted map has exactly one domain element per
/// entry, and its domain is finite.
pub proof fn lemma_assoc_map_dom_len(entries: Seq<(String, Vec<u8>)>)
    requires
        unique_keys(entries),
    ensures
        assoc_map(entries).dom().finite(),
        assoc_map(entries).dom().len() == entries.len(),
    decreases entries.len(),
{
    if entries.len() == 0 {
        assert(assoc_map(entries).dom() =~= Set::<Seq<char>>::empty());
    } else {
        let dl = entries.drop_last();
        assert(unique_keys(dl));
        lemma_assoc_map_dom_len(dl);
        lemma_assoc_map_contains(dl, entries.last().0@);
        assert(!assoc_map(dl).contains_key(entries.last().0@));
        assert(assoc_map(entries).dom() =~= assoc_map(dl).dom().insert(entries.last().0@));
    }
}

/// Under unique keys, the denoted map sends each entry's path to its content.
pub proof fn lemma_assoc_map_index(entries: Seq<(String, Vec<u8>)>, i: int)
    requires
        unique_keys(entries),
        0 <= i < entries.len(),
    ensures
        assoc_map(entries).contains_key(entries[i].0@),
        assoc_map(entries)[entries[i].0@] == entries[i].1@,
    decreases entries.len(),
{
    if i == entries.len() - 1 {
        assert(assoc_map(entries).contains_key(entries.last().0@));
    } else {
        assert(unique_keys(entries.drop_last()));
        assert(entries.drop_last()[i] == entries[i]);
        lemma_assoc_map_index(entries.drop_last(), i);
        assert(entries[i].0@ != entries.last().0@);
    }
}

} // verus!
