//! Selection of the source files to parse among what the include patterns
//! matched, and of the directories to hand the preprocessor.
use vstd::prelude::*;

use crate::table::{contains_name, names_view};
use crate::files::{file_name, file_name_of};
use crate::syntax::text_view;

verus! {

/// Index of the last `.` in `s`.
pub open spec fn last_dot(s: Seq<char>) -> Option<int>
    decreases s.len(),
{
    if s.len() == 0 {
        None
    } else if s.last() == '.' {
        Some(s.len() - 1)
    } else {
        last_dot(s.drop_last())
    }
}

/// The extension of a file name, as `Path::extension` documents it: the part
/// after the last `.`; none when there is no `.`, when the only `.` starts
/// the name, or for `..`.
pub open spec fn name_extension(name: Seq<char>) -> Option<Seq<char>> {
    if name == seq!['.', '.'] {
        None
    } else {
        match last_dot(name) {
            Some(k) => if k == 0 {
                None
            } else {
                Some(name.subrange(k + 1, name.len() as int))
            },
            None => None,
        }
    }
}

/// The extension of `path`: that of its file name, none without one.
pub open spec fn extension_of(path: Seq<char>) -> Option<Seq<char>> {
    match file_name_of(path) {
        Some(name) => name_extension(name),
        None => None,
    }
}

/// The parent directory of `path` as `Path::parent` gives it.
pub uninterp spec fn parent_of(path: Seq<char>) -> Option<Seq<char>>;

/// The extension of the file name `name`.
pub fn extension_of_name(name: &String) -> (r: Option<String>)
    ensures
        text_view(r) == name_extension(name@),
{
    let s = name.as_str();
    let n = s.unicode_len();
    let mut k: usize = n;
    assert(s@.subrange(0, n as int) =~= s@);
    while k > 0 && s.get_char(k - 1) != '.'
        invariant
            n == s@.len(),
            k <= n,
            last_dot(s@) == last_dot(s@.subrange(0, k as int)),
        decreases k,
    {
        assert(s@.subrange(0, k as int).drop_last() =~= s@.subrange(0, k - 1));
        k = k - 1;
    }
    proof {
        if k > 0 {
            assert(s@.subrange(0, k as int).last() == s@[k - 1]);
        } else {
            assert(s@.subrange(0, 0) =~= Seq::<char>::empty());
        }
    }
    if n == 2 && k == 2 && s.get_char(0) == '.' {
        assert(s@ =~= seq!['.', '.']);
        return None;
    }
    assert(n == 2 && k == 2 ==> s@[0] != '.' ==> s@ != seq!['.', '.']);
    if k <= 1 {
        None
    } else {
        Some(s.substring_char(k, n).to_owned())
    }
}

/// The extension of the file name of `path`.
fn extension(path: &String) -> (r: Option<String>)
    ensures
        text_view(r) == extension_of(path@),
{
    match file_name(path) {
        Some(name) => extension_of_name(&name),
        None => None,
    }
}

/// Relies on `std::path::Path::parent`: the path without its final
/// component, or `None` for a root or an empty path.
#[verifier::external_body]
fn parent(path: &String) -> (r: Option<String>)
    ensures
        text_view(r) == parent_of(path@),
{
    match std::path::Path::new(path.as_str()).parent() {
        Some(p) => Some(p.to_string_lossy().into_owned()),
        None => None,
    }
}

/// A path found by listing a directory.
pub struct DirEntry {
    pub path: String,
    pub is_file: bool,
}

/// What a path that an include pattern matched turned out to be.
pub enum GlobEntry {
    File(String),
    /// A directory, with what listing it gave.
    Directory(Vec<DirEntry>),
    Other,
}

/// Results from globbing include files.
pub struct GlobResults {
    /// List of files to parse.
    pub files: Vec<String>,
    /// Include directories to pass to the preprocessor.
    pub includes: Vec<String>,
}

/// A file extension `ext` (if any) is among `exts`.
pub open spec fn extension_allowed(ext: Option<Seq<char>>, exts: Seq<Seq<char>>) -> bool {
    match ext {
        Some(e) => exts.contains(e),
        None => false,
    }
}

/// `dirs` with `dir` appended unless it is there already.
pub open spec fn push_unique_spec(dirs: Seq<Seq<char>>, dir: Seq<char>) -> Seq<Seq<char>> {
    if dirs.contains(dir) {
        dirs
    } else {
        dirs.push(dir)
    }
}

/// `dirs` after recording the parent of `file` when `add` holds.
pub open spec fn with_parent(dirs: Seq<Seq<char>>, file: Seq<char>, add: bool) -> Seq<Seq<char>> {
    if !add {
        dirs
    } else {
        match parent_of(file) {
            Some(d) => push_unique_spec(dirs, d),
            None => dirs,
        }
    }
}

/// Paths of the files among the first `n` entries of a listing whose
/// extension is among `exts`, in order.
pub open spec fn listed_files(listing: Seq<DirEntry>, exts: Seq<Seq<char>>, n: int) -> Seq<Seq<char>>
    decreases n,
{
    if n <= 0 || n > listing.len() {
        Seq::empty()
    } else if listing[n - 1].is_file && extension_allowed(extension_of(listing[n - 1].path@), exts) {
        listed_files(listing, exts, n - 1).push(listing[n - 1].path@)
    } else {
        listed_files(listing, exts, n - 1)
    }
}

/// Files and directories gathered from the first `n` matched entries.
pub open spec fn collected(entries: Seq<GlobEntry>, exts: Seq<Seq<char>>, add: bool, n: int) -> (
    Seq<Seq<char>>,
    Seq<Seq<char>>,
)
    decreases n,
{
    if n <= 0 || n > entries.len() {
        (Seq::empty(), Seq::empty())
    } else {
        let (files, dirs) = collected(entries, exts, add, n - 1);
        match entries[n - 1] {
            GlobEntry::File(p) => if extension_allowed(extension_of(p@), exts) {
                (files.push(p@), with_parent(dirs, p@, add))
            } else {
                (files, dirs)
            },
            GlobEntry::Directory(listing) => (
                files + listed_files(listing@, exts, listing@.len() as int),
                dirs,
            ),
            GlobEntry::Other => (files, dirs),
        }
    }
}

/// The file extensions to parse: `sv` unless skipped, `v` unless skipped,
/// then `extra` in order.
pub open spec fn extensions_spec(skip_sv: bool, skip_v: bool, extra: Seq<Seq<char>>) -> Seq<Seq<char>> {
    let sv: Seq<Seq<char>> = if skip_sv {
        Seq::empty()
    } else {
        seq![seq!['s', 'v']]
    };
    let v: Seq<Seq<char>> = if skip_v {
        Seq::empty()
    } else {
        seq![seq!['v']]
    };
    sv + v + extra
}

/// Builds the list of file extensions to parse.
pub fn allowed_extensions(skip_sv: bool, skip_v: bool, extra: Vec<String>) -> (r: Vec<String>)
    ensures
        names_view(r@) == extensions_spec(skip_sv, skip_v, names_view(extra@)),
{
    let mut r: Vec<String> = Vec::new();
    if !skip_sv {
        let s = String::from_str("sv");
        proof {
            reveal_strlit("sv");
            assert(s@ =~= seq!['s', 'v']);
        }
        r.push(s);
    }
    if !skip_v {
        let s = String::from_str("v");
        proof {
            reveal_strlit("v");
            assert(s@ =~= seq!['v']);
        }
        r.push(s);
    }
    let ghost head = names_view(r@);
    let ghost ex = names_view(extra@);
    assert(head =~= extensions_spec(skip_sv, skip_v, Seq::empty()));
    let mut i: usize = 0;
    while i < extra.len()
        invariant
            i <= extra@.len(),
            ex == names_view(extra@),
            names_view(r@) == head + ex.subrange(0, i as int),
        decreases extra@.len() - i,
    {
        let ghost before = names_view(r@);
        r.push(extra[i].clone());
        assert(names_view(r@) =~= before.push(ex[i as int]));
        assert(ex.subrange(0, i + 1) =~= ex.subrange(0, i as int).push(ex[i as int]));
        assert(head + ex.subrange(0, i + 1) =~= (head + ex.subrange(0, i as int)).push(ex[i as int]));
        i = i + 1;
    }
    assert(ex.subrange(0, i as int) =~= ex);
    assert(head + ex =~= extensions_spec(skip_sv, skip_v, ex));
    r
}

/// Whether the extension `ext` is among `extensions`.
pub fn extension_listed(ext: Option<String>, extensions: &Vec<String>) -> (r: bool)
    ensures
        r == extension_allowed(text_view(ext), names_view(extensions@)),
{
    match ext {
        Some(e) => contains_name(extensions, &e),
        None => false,
    }
}

/// Checks that the extension of `file` is in the list of allowed extensions.
pub fn check_file_extension(file: &String, extensions: &Vec<String>) -> (r: bool)
    ensures
        r == extension_allowed(extension_of(file@), names_view(extensions@)),
{
    extension_listed(extension(file), extensions)
}

/// Appends `dir` to `dirs` unless it is there already.
pub fn push_unique(dir: String, dirs: &mut Vec<String>)
    ensures
        names_view(final(dirs)@) == push_unique_spec(names_view(old(dirs)@), dir@),
{
    if !contains_name(dirs, &dir) {
        let ghost before = names_view(dirs@);
        let ghost d = dir@;
        dirs.push(dir);
        assert(names_view(dirs@) =~= before.push(d));
    }
}

/// Adds the parent directory of `file` to the preprocessor includes when
/// `add_includes` holds.
pub fn add_parent(file: &String, add_includes: bool, includes: &mut Vec<String>)
    ensures
        names_view(final(includes)@) == with_parent(names_view(old(includes)@), file@, add_includes),
{
    if !add_includes {
        return;
    }
    match parent(file) {
        Some(dir) => push_unique(dir, includes),
        None => {},
    }
}

/// Adds the files of a directory listing whose extension is allowed.
pub fn add_directory(listing: &Vec<DirEntry>, extensions: &Vec<String>, files: &mut Vec<String>)
    ensures
        names_view(final(files)@) == names_view(old(files)@) + listed_files(
            listing@,
            names_view(extensions@),
            listing@.len() as int,
        ),
{
    let ghost start = names_view(files@);
    let ghost exts = names_view(extensions@);
    let mut i: usize = 0;
    assert(start =~= start + listed_files(listing@, exts, 0));
    while i < listing.len()
        invariant
            i <= listing@.len(),
            exts == names_view(extensions@),
            start == names_view(old(files)@),
            names_view(files@) == start + listed_files(listing@, exts, i as int),
        decreases listing@.len() - i,
    {
        let entry = &listing[i];
        if entry.is_file && check_file_extension(&entry.path, extensions) {
            let ghost before = names_view(files@);
            files.push(entry.path.clone());
            assert(names_view(files@) =~= before.push(entry.path@));
        }
        proof {
            assert(start + listed_files(listing@, exts, i + 1) =~= names_view(files@));
        }
        i = i + 1;
    }
}

/// Gathers the files to parse from what the include patterns matched: each
/// matched file with an allowed extension, and each such file directly inside
/// a matched directory; with `add_includes`, also the directory of each
/// matched file, once.
pub fn collect_files(entries: &Vec<GlobEntry>, extensions: &Vec<String>, add_includes: bool) -> (r: GlobResults)
    ensures
        (names_view(r.files@), names_view(r.includes@)) == collected(
            entries@,
            names_view(extensions@),
            add_includes,
            entries@.len() as int,
        ),
{
    let ghost exts = names_view(extensions@);
    let mut files: Vec<String> = Vec::new();
    let mut includes: Vec<String> = Vec::new();
    let mut i: usize = 0;
    assert(names_view(files@) =~= Seq::empty());
    assert(names_view(includes@) =~= Seq::empty());
    while i < entries.len()
        invariant
            i <= entries@.len(),
            exts == names_view(extensions@),
            (names_view(files@), names_view(includes@)) == collected(entries@, exts, add_includes, i as int),
        decreases entries@.len() - i,
    {
        match &entries[i] {
            GlobEntry::File(path) => {
                if check_file_extension(path, extensions) {
                    add_parent(path, add_includes, &mut includes);
                    let ghost before = names_view(files@);
                    files.push(path.clone());
                    assert(names_view(files@) =~= before.push(path@));
                }
            },
            GlobEntry::Directory(listing) => {
                add_directory(listing, extensions, &mut files);
            },
            GlobEntry::Other => {},
        }
        i = i + 1;
    }
    GlobResults { files, includes }
}

} // verus!
