//! The explicit model of the host collaborator: a table of files keyed by
//! path, the process-wide UID registry, and the set of paths whose files
//! currently refuse to open (the model of I/O failure).  Every save, load
//! and export operation of the core runs against one `ResourceHost`.

use vstd::prelude::*;

use crate::uid::UidRegistry;

verus! {

/// One stored file: its path and its bytes.
pub struct FileEntry {
    pub path: String,
    pub data: Vec<u8>,
}

/// The model filesystem: at most one file per path.
pub struct FileTable {
    pub entries: Vec<FileEntry>,
}

impl FileTable {
    /// Well-formedness: paths are pairwise distinct.
    pub open spec fn wf(self) -> bool {
        forall|i: int, j: int|
            0 <= i < j < self.entries.len() ==> #[trigger] self.entries[i].path@
                != #[trigger] self.entries[j].path@
    }

    /// True when a file exists at `path`.
    pub open spec fn spec_has_file(self, path: Seq<char>) -> bool {
        exists|i: int| 0 <= i < self.entries.len() && #[trigger] self.entries[i].path@ == path
    }

    /// The bytes of the file at `path`.
    pub open spec fn spec_file_data(self, path: Seq<char>) -> Seq<u8> {
        self.entries[choose|i: int|
            0 <= i < self.entries.len() && #[trigger] self.entries[i].path@ == path].data@
    }

    /// An empty filesystem.
    pub fn new() -> (r: Self)
        ensures
            r.wf(),
            forall|p: Seq<char>| !r.spec_has_file(p),
    {
        FileTable { entries: Vec::new() }
    }

    /// True when a file exists at `path`.
    pub fn has_file(&self, path: &String) -> (r: bool)
        ensures
            r == self.spec_has_file(path@),
    {
        let mut i: usize = 0;
        while i < self.entries.len()
            invariant
                i <= self.entries.len(),
                forall|j: int| 0 <= j < i ==> #[trigger] self.entries[j].path@ != path@,
            decreases self.entries.len() - i,
        {
            if self.entries[i].path.eq(path) {
                return true;
            }
            i += 1;
        }
        false
    }

    /// The bytes of the file at `path`, when one exists.
    pub fn get_file(&self, path: &String) -> (r: Option<Vec<u8>>)
        requires
            self.wf(),
        ensures
            r is Some <==> self.spec_has_file(path@),
            r matches Some(v) ==> v@ == self.spec_file_data(path@),
    {
        let mut i: usize = 0;
        while i < self.entries.len()
            invariant
                self.wf(),
                i <= self.entries.len(),
                forall|j: int| 0 <= j < i ==> #[trigger] self.entries[j].path@ != path@,
            decreases self.entries.len() - i,
        {
            if self.entries[i].path.eq(path) {
                proof {
                    lemma_file_data_is(*self, path@, i as int);
                }
                return Some(self.entries[i].data.clone());
            }
            i += 1;
        }
        None
    }

    /// Stores `data` at `path`, replacing any file already there.
    pub fn set_file(&mut self, path: &String, data: Vec<u8>)
        requires
            old(self).wf(),
        ensures
            final(self).wf(),
            final(self).spec_has_file(path@),
            final(self).spec_file_data(path@) == data@,
            forall|p: Seq<char>|
                p != path@ ==> final(self).spec_has_file(p) == old(self).spec_has_file(p),
            forall|p: Seq<char>|
                p != path@ && old(self).spec_has_file(p) ==> final(self).spec_file_data(p)
                    == old(self).spec_file_data(p),
    {
        let mut i: usize = 0;
        while i < self.entries.len()
            invariant
                old(self).wf(),
                *self == *old(self),
                i <= self.entries.len(),
                forall|j: int| 0 <= j < i ==> #[trigger] self.entries[j].path@ != path@,
            decreases self.entries.len() - i,
        {
            if self.entries[i].path.eq(path) {
                let entry = FileEntry { path: path.clone(), data };
                self.entries.set(i, entry);
                proof {
                    let oldt = *old(self);
                    assert(self.entries[i as int].path@ == path@);
                    assert(self.wf());
                    lemma_file_data_is(*self, path@, i as int);
                    assert forall|p: Seq<char>|
                        p != path@ implies final(self).spec_has_file(p) == oldt.spec_has_file(
                        p,
                    ) by {
                        if oldt.spec_has_file(p) {
                            let j = choose|j: int|
                                0 <= j < oldt.entries.len() && #[trigger] oldt.entries[j].path@
                                    == p;
                            assert(j != i);
                            assert(self.entries[j].path@ == p);
                        }
                        if self.spec_has_file(p) {
                            let j = choose|j: int|
                                0 <= j < self.entries.len() && #[trigger] self.entries[j].path@
                                    == p;
                            assert(j != i);
                            assert(oldt.entries[j].path@ == p);
                        }
                    }
                    assert forall|p: Seq<char>|
                        p != path@ && oldt.spec_has_file(p) implies final(self).spec_file_data(
                        p,
                    ) == oldt.spec_file_data(p) by {
                        let j = choose|j: int|
                            0 <= j < oldt.entries.len() && #[trigger] oldt.entries[j].path@
                                == p;
                        assert(j != i);
                        assert(self.entries[j].path@ == p);
                        lemma_file_data_is(oldt, p, j);
                        lemma_file_data_is(*self, p, j);
                    }
                }
                return;
            }
            i += 1;
        }
        let entry = FileEntry { path: path.clone(), data };
        self.entries.push(entry);
        proof {
            let oldt = *old(self);
            let n = self.entries.len() - 1;
            assert(self.entries[n as int].path@ == path@);
            assert(self.wf());
            lemma_file_data_is(*self, path@, n as int);
            assert forall|p: Seq<char>|
                p != path@ implies final(self).spec_has_file(p) == oldt.spec_has_file(p) by {
                if oldt.spec_has_file(p) {
                    let j = choose|j: int|
                        0 <= j < oldt.entries.len() && #[trigger] oldt.entries[j].path@ == p;
                    assert(self.entries[j].path@ == p);
                }
                if self.spec_has_file(p) {
                    let j = choose|j: int|
                        0 <= j < self.entries.len() && #[trigger] self.entries[j].path@ == p;
                    assert(j < n);
                    assert(oldt.entries[j].path@ == p);
                }
            }
            assert forall|p: Seq<char>|
                p != path@ && oldt.spec_has_file(p) implies final(self).spec_file_data(p)
                    == oldt.spec_file_data(p) by {
                let j = choose|j: int|
                    0 <= j < oldt.entries.len() && #[trigger] oldt.entries[j].path@ == p;
                assert(self.entries[j].path@ == p);
                lemma_file_data_is(oldt, p, j);
                lemma_file_data_is(*self, p, j);
            }
        }
    }

    /// Deletes the file at `path`; reports whether one was there.
    pub fn remove_file(&mut self, path: &String) -> (r: bool)
        requires
            old(self).wf(),
        ensures
            final(self).wf(),
            r == old(self).spec_has_file(path@),
            !final(self).spec_has_file(path@),
            forall|p: Seq<char>|
                p != path@ ==> final(self).spec_has_file(p) == old(self).spec_has_file(p),
            forall|p: Seq<char>|
                p != path@ && old(self).spec_has_file(p) ==> final(self).spec_file_data(p)
                    == old(self).spec_file_data(p),
    {
        let mut i: usize = 0;
        while i < self.entries.len()
            invariant
                old(self).wf(),
                *self == *old(self),
                i <= self.entries.len(),
                forall|j: int| 0 <= j < i ==> #[trigger] self.entries[j].path@ != path@,
            decreases self.entries.len() - i,
        {
            if self.entries[i].path.eq(path) {
                self.entries.remove(i);
                proof {
                    let oldt = *old(self);
                    let oldv = oldt.entries@;
                    let newv = self.entries@;
                    assert(newv =~= oldv.subrange(0, i as int) + oldv.subrange(
                        i + 1,
                        oldv.len() as int,
                    ));
                    assert forall|j: int|
                        0 <= j < newv.len() implies #[trigger] newv[j] == (if j < i {
                            oldv[j]
                        } else {
                            oldv[j + 1]
                        }) by {}
                    assert(self.wf());
                    if self.spec_has_file(path@) {
                        let j = choose|j: int|
                            0 <= j < newv.len() && #[trigger] self.entries[j].path@ == path@;
                        if j < i {
                            assert(oldv[j].path@ == path@);
                        } else {
                            assert(oldv[j + 1].path@ == path@);
                        }
                        assert(false);
                    }
                    assert forall|p: Seq<char>|
                        p != path@ && oldt.spec_has_file(p) implies final(self).spec_has_file(
                        p,
                    ) && final(self).spec_file_data(p) == oldt.spec_file_data(p) by {
                        let j = choose|j: int|
                            0 <= j < oldv.len() && #[trigger] oldt.entries[j].path@ == p;
                        assert(j != i);
                        if j < i {
                            assert(self.entries[j].path@ == p);
                            lemma_file_data_is(oldt, p, j);
                            lemma_file_data_is(*self, p, j);
                        } else {
                            assert(self.entries[j - 1].path@ == p);
                            lemma_file_data_is(oldt, p, j);
                            lemma_file_data_is(*self, p, j - 1);
                        }
                    }
                    assert forall|p: Seq<char>|
                        p != path@ && self.spec_has_file(p) implies oldt.spec_has_file(p) by {
                        let j = choose|j: int|
                            0 <= j < newv.len() && #[trigger] self.entries[j].path@ == p;
                        if j < i {
                            assert(oldt.entries[j].path@ == p);
                        } else {
                            assert(oldt.entries[j + 1].path@ == p);
                        }
                    }
                }
                return true;
            }
            i += 1;
        }
        false
    }
}

/// Under well-formedness, the bytes at `path` are those stored at any
/// index holding `path`.
pub proof fn lemma_file_data_is(t: FileTable, path: Seq<char>, i: int)
    requires
        t.wf(),
        0 <= i < t.entries.len(),
        t.entries[i].path@ == path,
    ensures
        t.spec_has_file(path),
        t.spec_file_data(path) == t.entries[i].data@,
{
    assert(t.spec_has_file(path));
    let j = choose|j: int| 0 <= j < t.entries.len() && #[trigger] t.entries[j].path@ == path;
    if i != j {
        if i < j {
            assert(t.entries[i].path@ != t.entries[j].path@);
        } else {
            assert(t.entries[j].path@ != t.entries[i].path@);
        }
        assert(false);
    }
}

/// The host collaborator as one explicit object: the filesystem, the UID
/// registry, and the set of paths that currently refuse to open.
pub struct ResourceHost {
    pub files: FileTable,
    pub registry: UidRegistry,
    pub locked: Vec<String>,
}

impl ResourceHost {
    /// Well-formedness of both stateful parts.
    pub open spec fn wf(self) -> bool {
        self.files.wf() && self.registry.wf()
    }

    /// True when opening the file at `path` fails.
    pub open spec fn spec_locked(self, path: Seq<char>) -> bool {
        exists|i: int| 0 <= i < self.locked.len() && #[trigger] self.locked[i]@ == path
    }

    /// A host with no files, no registered UIDs and nothing locked.
    pub fn new() -> (r: Self)
        ensures
            r.wf(),
            r.registry.has_capacity(),
            forall|p: Seq<char>| !r.files.spec_has_file(p),
            forall|u: int| !r.registry.spec_has_id(u),
            forall|p: Seq<char>| !r.spec_locked(p),
    {
        ResourceHost {
            files: FileTable::new(),
            registry: UidRegistry::new(),
            locked: Vec::new(),
        }
    }

    /// True when opening the file at `path` fails.
    pub fn is_locked(&self, path: &String) -> (r: bool)
        ensures
            r == self.spec_locked(path@),
    {
        let mut i: usize = 0;
        while i < self.locked.len()
            invariant
                i <= self.locked.len(),
                forall|j: int| 0 <= j < i ==> #[trigger] self.locked[j]@ != path@,
            decreases self.locked.len() - i,
        {
            if self.locked[i].eq(path) {
                return true;
            }
            i += 1;
        }
        false
    }

    /// Marks `path` as refusing to open.
    pub fn lock_path(&mut self, path: String)
        requires
            old(self).wf(),
        ensures
            final(self).wf(),
            final(self).files == old(self).files,
            final(self).registry == old(self).registry,
            final(self).spec_locked(path@),
            forall|p: Seq<char>|
                p != path@ ==> final(self).spec_locked(p) == old(self).spec_locked(p),
    {
        let ghost pview = path@;
        self.locked.push(path);
        proof {
            let n = self.locked.len() - 1;
            assert(self.locked[n as int]@ == pview);
            assert forall|p: Seq<char>|
                p != pview implies final(self).spec_locked(p) == old(self).spec_locked(p) by {
                if old(self).spec_locked(p) {
                    let j = choose|j: int|
                        0 <= j < old(self).locked.len() && #[trigger] old(self).locked[j]@
                            == p;
                    assert(self.locked[j]@ == p);
                }
                if self.spec_locked(p) {
                    let j = choose|j: int|
                        0 <= j < self.locked.len() && #[trigger] self.locked[j]@ == p;
                    assert(j < n);
                    assert(old(self).locked[j]@ == p);
                }
            }
        }
    }
}

} // verus!
