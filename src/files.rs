//! Source file records: which files were read, and which of them define a
//! module reachable from the designated top.
use vstd::prelude::*;

use crate::syntax::text_view;

verus! {

/// The last component of `path` as `Path::file_name` gives it.
pub uninterp spec fn file_name_of(path: Seq<char>) -> Option<Seq<char>>;

/// Relies on `std::path::Path::file_name`: the final component of the path,
/// or `None` when the path ends in `..` or has no component.
#[verifier::external_body]
pub(crate) fn file_name(path: &String) -> (r: Option<String>)
    ensures
        text_view(r) == file_name_of(path@),
{
    match std::path::Path::new(path.as_str()).file_name() {
        Some(n) => Some(n.to_string_lossy().into_owned()),
        None => None,
    }
}

/// The name a file is listed under: its file name, or the whole path when
/// it has none.
pub open spec fn listed_name(path: Seq<char>) -> Seq<char> {
    match file_name_of(path) {
        Some(n) => n,
        None => path,
    }
}

/// One source file: its file name, its full path, and whether it defines a
/// module reachable from the designated top.
pub struct FileEntry {
    pub filename: String,
    pub path: String,
    pub included: bool,
}

pub struct FileEntryView {
    pub filename: Seq<char>,
    pub path: Seq<char>,
    pub included: bool,
}

impl View for FileEntry {
    type V = FileEntryView;

    open spec fn view(&self) -> FileEntryView {
        FileEntryView { filename: self.filename@, path: self.path@, included: self.included }
    }
}

/// The files of a run, one entry per full path; files with the same name in
/// different directories have an entry each.
pub struct FileTable {
    pub entries: Vec<FileEntry>,
}

impl View for FileTable {
    type V = Seq<FileEntryView>;

    open spec fn view(&self) -> Seq<FileEntryView> {
        self.entries@.map_values(|e: FileEntry| e@)
    }
}

impl FileTable {
    /// No path is listed twice.
    pub open spec fn wf(&self) -> bool {
        forall|a: int, b: int|
            0 <= a < self@.len() && 0 <= b < self@.len() && a != b ==> #[trigger] self@[a].path
                != #[trigger] self@[b].path
    }

    /// No file is marked.
    pub open spec fn unmarked(&self) -> bool {
        forall|a: int| 0 <= a < self@.len() ==> !(#[trigger] self@[a]).included
    }

    /// Whether `path` is listed.
    pub open spec fn lists(&self, path: Seq<char>) -> bool {
        exists|a: int| 0 <= a < self@.len() && #[trigger] self@[a].path == path
    }

    pub fn new() -> (r: Self)
        ensures
            r.wf(),
            r@ == Seq::<FileEntryView>::empty(),
    {
        let r = FileTable { entries: Vec::new() };
        assert(r@ =~= Seq::<FileEntryView>::empty());
        r
    }

    /// Lists the file at `path`, unmarked, unless it is listed already.
    pub fn add(&mut self, path: &String)
        requires
            old(self).wf(),
        ensures
            final(self).wf(),
            old(self).lists(path@) ==> final(self)@ == old(self)@,
            !old(self).lists(path@) ==> final(self)@ == old(self)@.push(
                FileEntryView { filename: listed_name(path@), path: path@, included: false },
            ),
    {
        let name = file_name(path);
        self.add_named(path, name);
    }

    /// Lists the file at `path` under `name`, or under the whole path when
    /// `name` is `None`, unmarked, unless the path is listed already.
    pub fn add_named(&mut self, path: &String, name: Option<String>)
        requires
            old(self).wf(),
        ensures
            final(self).wf(),
            old(self).lists(path@) ==> final(self)@ == old(self)@,
            !old(self).lists(path@) ==> final(self)@ == old(self)@.push(
                FileEntryView {
                    filename: match text_view(name) {
                        Some(n) => n,
                        None => path@,
                    },
                    path: path@,
                    included: false,
                },
            ),
    {
        let mut i: usize = 0;
        while i < self.entries.len()
            invariant
                self.wf(),
                self@ == old(self)@,
                i <= self@.len(),
                self.entries@.len() == self@.len(),
                forall|a: int| 0 <= a < i ==> (#[trigger] self@[a]).path != path@,
            decreases self@.len() - i,
        {
            if self.entries[i].path == *path {
                assert(self@[i as int].path == path@);
                return;
            }
            i = i + 1;
        }
        let ghost listed = match text_view(name) {
            Some(n) => n,
            None => path@,
        };
        let filename = match name {
            Some(n) => n,
            None => path.clone(),
        };
        let ghost before = self@;
        self.entries.push(FileEntry { filename, path: path.clone(), included: false });
        assert(self@ =~= before.push(FileEntryView { filename: listed, path: path@, included: false }));
    }

    /// Marks the file at `path`.
    pub fn mark(&mut self, path: &String)
        requires
            old(self).wf(),
        ensures
            final(self).wf(),
            final(self)@.len() == old(self)@.len(),
            forall|a: int|
                0 <= a < old(self)@.len() ==> (#[trigger] final(self)@[a]).filename == old(self)@[a].filename
                    && final(self)@[a].path == old(self)@[a].path && final(self)@[a].included == (
                old(self)@[a].included || old(self)@[a].path == path@),
    {
        let ghost start = self@;
        let mut i: usize = 0;
        while i < self.entries.len()
            invariant
                i <= self@.len(),
                self.entries@.len() == self@.len(),
                self@.len() == start.len(),
                forall|a: int|
                    0 <= a < start.len() ==> (#[trigger] self@[a]).filename == start[a].filename
                        && self@[a].path == start[a].path,
                forall|a: int|
                    0 <= a < i ==> (#[trigger] self@[a]).included == (start[a].included || start[a].path
                        == path@),
                forall|a: int| i <= a < start.len() ==> (#[trigger] self@[a]).included == start[a].included,
                start == old(self)@,
                old(self).wf(),
            decreases self@.len() - i,
        {
            if self.entries[i].path == *path {
                let e = FileEntry {
                    filename: self.entries[i].filename.clone(),
                    path: self.entries[i].path.clone(),
                    included: true,
                };
                let ghost before = self@;
                assert(before[i as int].path == path@);
                let ghost ev = e@;
                self.entries.set(i, e);
                assert forall|a: int| 0 <= a < start.len() && a != i implies #[trigger] self@[a] == before[a] by {}
                assert(self@[i as int] == ev);
                assert(start[i as int].path == path@);
            }
            i = i + 1;
        }
        assert(self.wf()) by {
            assert forall|a: int, b: int|
                0 <= a < self@.len() && 0 <= b < self@.len() && a != b implies #[trigger] self@[a].path
                    != #[trigger] self@[b].path by {
                assert(self@[a].path == start[a].path);
                assert(self@[b].path == start[b].path);
            }
        }
    }
}

} // verus!
