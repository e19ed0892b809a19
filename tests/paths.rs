use rsvparser::diagnostics::{locate_error, ErrorLocation};
use rsvparser::includes::{add_directory, allowed_extensions, extension_of_name, add_parent, check_file_extension, collect_files, extension_listed, push_unique, DirEntry, GlobEntry};

fn exts(list: &[&str]) -> Vec<String> {
    list.iter().map(|s| s.to_string()).collect()
}

#[test]
fn file_extension_is_checked() {
    let sv = exts(&["sv"]);
    assert!(check_file_extension(&"example/rtl/adder.sv".to_string(), &sv));
    assert!(!check_file_extension(&"example/rtl/adder.v".to_string(), &sv));
    assert!(!check_file_extension(&"example/rtl/Makefile".to_string(), &sv));
    assert!(!check_file_extension(&"example/rtl/adder.sv".to_string(), &exts(&[])));
    assert!(check_file_extension(&"a.b/c.v".to_string(), &exts(&["sv", "v"])));
    assert!(extension_listed(Some("sv".to_string()), &sv));
    assert!(!extension_listed(None, &sv));
}

#[test]
fn parent_directory_is_added_once() {
    let mut includes = Vec::new();
    add_parent(&"example/rtl/adder.sv".to_string(), true, &mut includes);
    add_parent(&"example/rtl/alu.sv".to_string(), true, &mut includes);
    add_parent(&"example/rtl/unitblocks/mux.sv".to_string(), true, &mut includes);
    assert_eq!(includes, vec!["example/rtl".to_string(), "example/rtl/unitblocks".to_string()]);
    add_parent(&"other/x.sv".to_string(), false, &mut includes);
    assert_eq!(includes.len(), 2);
    push_unique("example/rtl".to_string(), &mut includes);
    assert_eq!(includes.len(), 2);
}

#[test]
fn directory_listing_is_filtered() {
    let listing = vec![
        DirEntry { path: "d/a.sv".to_string(), is_file: true },
        DirEntry { path: "d/sub.sv".to_string(), is_file: false },
        DirEntry { path: "d/b.txt".to_string(), is_file: true },
        DirEntry { path: "d/c.sv".to_string(), is_file: true },
    ];
    let mut files = vec!["x.sv".to_string()];
    add_directory(&listing, &exts(&["sv"]), &mut files);
    assert_eq!(files, vec!["x.sv".to_string(), "d/a.sv".to_string(), "d/c.sv".to_string()]);
}

#[test]
fn matched_entries_are_collected() {
    let entries = vec![
        GlobEntry::File("rtl/adder.sv".to_string()),
        GlobEntry::File("rtl/notes.txt".to_string()),
        GlobEntry::Directory(vec![DirEntry { path: "rtl/unit/mux.sv".to_string(), is_file: true }]),
        GlobEntry::Other,
        GlobEntry::File("rtl/unit/mux.sv".to_string()),
    ];
    let r = collect_files(&entries, &exts(&["sv"]), true);
    assert_eq!(
        r.files,
        vec!["rtl/adder.sv".to_string(), "rtl/unit/mux.sv".to_string(), "rtl/unit/mux.sv".to_string()]
    );
    assert_eq!(r.includes, vec!["rtl".to_string(), "rtl/unit".to_string()]);
    let none = collect_files(&entries, &exts(&[]), true);
    assert!(none.files.is_empty());
    assert!(none.includes.is_empty());
    let no_dirs = collect_files(&entries, &exts(&["sv"]), false);
    assert!(no_dirs.includes.is_empty());
}

#[test]
fn error_offsets_are_located() {
    let text = b"ab\ncd\nef";
    assert_eq!(
        locate_error(text, 4),
        Some(ErrorLocation { line: 1, column: 2, line_start: 3, line_end: 5 })
    );
    assert_eq!(
        locate_error(text, 1),
        Some(ErrorLocation { line: 0, column: 1, line_start: 0, line_end: 2 })
    );
    assert_eq!(
        locate_error(text, 8),
        Some(ErrorLocation { line: 2, column: 3, line_start: 6, line_end: 8 })
    );
    assert_eq!(locate_error(text, 9), None);
}

#[test]
fn file_listed_under_path_without_name() {
    let mut files = rsvparser::files::FileTable::new();
    files.add_named(&"dir/..".to_string(), None);
    files.add_named(&"dir/..".to_string(), Some("again".to_string()));
    files.add(&"rtl/top.sv".to_string());
    assert_eq!(files.entries.len(), 2);
    assert_eq!(files.entries[0].filename, "dir/..");
    assert_eq!(files.entries[1].filename, "top.sv");
    files.mark(&"rtl/top.sv".to_string());
    assert!(files.entries[1].included);
    assert!(!files.entries[0].included);
}

#[test]
fn extension_list_follows_flags() {
    assert_eq!(allowed_extensions(false, false, vec!["svh".to_string()]), exts(&["sv", "v", "svh"]));
    assert_eq!(allowed_extensions(true, false, vec![]), exts(&["v"]));
    assert_eq!(allowed_extensions(true, true, vec![]), exts(&[]));
}

#[test]
fn file_name_extensions() {
    let ext = |s: &str| extension_of_name(&s.to_string());
    assert_eq!(ext("adder.sv"), Some("sv".to_string()));
    assert_eq!(ext("a.b.c"), Some("c".to_string()));
    assert_eq!(ext("a."), Some(String::new()));
    assert_eq!(ext(".bashrc"), None);
    assert_eq!(ext("Makefile"), None);
    assert_eq!(ext(".."), None);
    assert_eq!(ext(""), None);
    assert!(check_file_extension(&"dir.v/.sv".to_string(), &exts(&["sv"])) == false);
}
