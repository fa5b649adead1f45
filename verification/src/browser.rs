//! Sample-browser state: the data the browser pane works on. Painting,
//! scrolling and input handling live with the UI toolkit, outside this
//! library; paths are carried as plain strings.

pub mod entry;

use vstd::prelude::*;

verus! {

/// Which pane of the browser is selected.
#[derive(Debug, Clone, Copy, PartialEq, Eq, Structural)]
pub enum Category {
    Files,
    Devices,
}

/// What kind of filesystem object a browser row shows.
#[derive(Debug, Clone, Copy, PartialEq, Eq, PartialOrd, Ord, Structural)]
pub enum EntryKind {
    Directory,
    Audio,
    File,
}

/// One row of the browser: a path, what it is, and its tree depth.
#[derive(Debug, Clone, PartialEq, Eq)]
pub struct Entry {
    pub path: String,
    pub kind: EntryKind,
    pub indent: usize,
}

/// A folder opened in the browser, with the set of directories expanded
/// under it. The expanded set holds each path at most once.
#[derive(Debug, Clone, PartialEq, Eq)]
pub struct OpenFolder {
    pub path: String,
    pub expanded_directories: Vec<String>,
}

impl OpenFolder {
    /// The expanded set holds no path twice.
    pub open spec fn wf(&self) -> bool {
        forall|i: int, j: int|
            0 <= i < j < self.expanded_directories@.len()
                ==> self.expanded_directories@[i]@ != self.expanded_directories@[j]@
    }

    /// Opens a folder with nothing expanded under it.
    pub fn new(path: String) -> (r: OpenFolder)
        ensures
            r.wf(),
            r.path@ == path@,
            r.expanded_directories@.len() == 0,
    {
        OpenFolder { path, expanded_directories: Vec::new() }
    }

    /// Whether the given directory is currently expanded.
    pub fn is_expanded(&self, path: &String) -> (r: bool)
        ensures
            r == self.spec_is_expanded(path@),
    {
        let mut i: usize = 0;
        while i < self.expanded_directories.len()
            invariant
                i <= self.expanded_directories@.len(),
                forall|j: int| 0 <= j < i ==> self.expanded_directories@[j]@ != path@,
            decreases self.expanded_directories@.len() - i,
        {
            if self.expanded_directories[i] == *path {
                return true;
            }
            i = i + 1;
        }
        false
    }

    /// Whether a path with the given text is in the expanded set.
    pub open spec fn spec_is_expanded(&self, path: Seq<char>) -> bool {
        exists|j: int|
            0 <= j < self.expanded_directories@.len() && self.expanded_directories@[j]@ == path
    }

    /// Marks a directory expanded. A directory already expanded stays so,
    /// and stays listed only once.
    pub fn expand_directory(&mut self, path: String)
        requires
            old(self).wf(),
        ensures
            final(self).wf(),
            final(self).path == old(self).path,
            final(self).spec_is_expanded(path@),
            forall|p: Seq<char>|
                final(self).spec_is_expanded(p) == (old(self).spec_is_expanded(p) || p == path@),
    {
        let ghost p0 = path@;
        if !self.is_expanded(&path) {
            self.expanded_directories.push(path);
            proof {
                let n = self.expanded_directories@.len() - 1;
                assert(self.expanded_directories@[n]@ == p0);
                assert forall|p: Seq<char>|
                    self.spec_is_expanded(p) == (old(self).spec_is_expanded(p) || p == p0) by {
                    if p == p0 {
                        assert(self.spec_is_expanded(p));
                    }
                    if old(self).spec_is_expanded(p) {
                        let j = choose|j: int|
                            0 <= j < old(self).expanded_directories@.len() && old(
                                self,
                            ).expanded_directories@[j]@ == p;
                        assert(self.expanded_directories@[j]@ == p);
                        assert(self.spec_is_expanded(p));
                    }
                    if self.spec_is_expanded(p) && p != p0 {
                        let j = choose|j: int|
                            0 <= j < self.expanded_directories@.len()
                                && self.expanded_directories@[j]@ == p;
                        assert(old(self).expanded_directories@[j]@ == p);
                        assert(old(self).spec_is_expanded(p));
                    }
                }
            }
        } else {
            proof {
                assert forall|p: Seq<char>|
                    self.spec_is_expanded(p) == (old(self).spec_is_expanded(p) || p == p0) by {
                    if p == p0 {
                        assert(self.spec_is_expanded(p));
                    }
                }
            }
        }
    }

    /// Removes a directory from the expanded set; every other entry stays.
    pub fn collapse_directory(&mut self, path: &String)
        requires
            old(self).wf(),
        ensures
            final(self).wf(),
            final(self).path == old(self).path,
            !final(self).spec_is_expanded(path@),
            forall|p: Seq<char>|
                final(self).spec_is_expanded(p) == (old(self).spec_is_expanded(p) && p != path@),
    {
        let mut kept: Vec<String> = Vec::new();
        let mut i: usize = 0;
        while i < self.expanded_directories.len()
            invariant
                i <= self.expanded_directories@.len(),
                old(self).wf(),
                self.expanded_directories == old(self).expanded_directories,
                self.path == old(self).path,
                forall|j: int, l: int| 0 <= j < l < kept@.len() ==> kept@[j]@ != kept@[l]@,
                forall|j: int| 0 <= j < kept@.len() ==> kept@[j]@ != path@,
                forall|j: int|
                    #![trigger kept@[j]]
                    0 <= j < kept@.len() ==> (exists|l: int|
                        0 <= l < i && #[trigger] self.expanded_directories@[l]@ == kept@[j]@),
                forall|l: int|
                    #![trigger self.expanded_directories@[l]]
                    0 <= l < i && self.expanded_directories@[l]@ != path@ ==> (exists|j: int|
                        0 <= j < kept@.len() && #[trigger] kept@[j]@
                            == self.expanded_directories@[l]@),
            decreases self.expanded_directories@.len() - i,
        {
            if !(self.expanded_directories[i] == *path) {
                let ghost before = kept@;
                let e = self.expanded_directories[i].clone();
                proof {
                    assert(e@ == self.expanded_directories@[i as int]@);
                }
                kept.push(e);
                proof {
                    assert(kept@[kept@.len() - 1]@ == self.expanded_directories@[i as int]@);
                    assert(forall|j: int| 0 <= j < before.len() ==> kept@[j] == before[j]);
                }
            }
            i = i + 1;
        }
        self.expanded_directories = kept;
        proof {
            assert forall|p: Seq<char>|
                self.spec_is_expanded(p) == (old(self).spec_is_expanded(p) && p != path@) by {
                if self.spec_is_expanded(p) {
                    let j = choose|j: int|
                        0 <= j < self.expanded_directories@.len()
                            && self.expanded_directories@[j]@ == p;
                    assert(p != path@);
                    let l = choose|l: int|
                        0 <= l < old(self).expanded_directories@.len() && old(
                            self,
                        ).expanded_directories@[l]@ == self.expanded_directories@[j]@;
                    assert(old(self).expanded_directories@[l]@ == p);
                    assert(old(self).spec_is_expanded(p));
                }
                if old(self).spec_is_expanded(p) && p != path@ {
                    let l = choose|l: int|
                        0 <= l < old(self).expanded_directories@.len() && old(
                            self,
                        ).expanded_directories@[l]@ == p;
                    let j = choose|j: int|
                        0 <= j < self.expanded_directories@.len()
                            && self.expanded_directories@[j]@ == old(
                            self,
                        ).expanded_directories@[l]@;
                    assert(self.expanded_directories@[j]@ == p);
                    assert(self.spec_is_expanded(p));
                }
            }
        }
    }
}

} // verus!
