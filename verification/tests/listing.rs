use opendal_wasm::entry::{FileEntry, RawEntry};
use opendal_wasm::listing::{direct_child_name, filter_direct_children, prefix_of_query};

fn file(path: &str, size: u64) -> RawEntry {
    RawEntry { path: path.to_string(), size, is_dir: false, last_modified: None }
}

fn dir(path: &str) -> RawEntry {
    RawEntry { path: path.to_string(), size: 0, is_dir: true, last_modified: None }
}

fn names(entries: &[FileEntry]) -> Vec<String> {
    entries.iter().map(|e| e.name.clone()).collect()
}

#[test]
fn root_query_keeps_direct_children_only() {
    let raw = vec![file("a", 1), dir("b/"), file("b/c", 2)];
    let out = filter_direct_children("/", &raw);
    assert_eq!(
        out,
        vec![
            FileEntry {
                path: "a".to_string(),
                name: "a".to_string(),
                size: 1,
                is_dir: false,
                last_modified: None,
            },
            FileEntry {
                path: "b/".to_string(),
                name: "b".to_string(),
                size: 0,
                is_dir: true,
                last_modified: None,
            },
        ]
    );
}

#[test]
fn nested_query_keeps_direct_children_only() {
    let raw = vec![dir("dir/"), file("dir/x.txt", 7), dir("dir/sub/"), file("dir/sub/y.txt", 9)];
    let out = filter_direct_children("/dir", &raw);
    assert_eq!(names(&out), vec!["x.txt".to_string(), "sub".to_string()]);
    assert_eq!(out[0].path, "dir/x.txt");
    assert!(!out[0].is_dir);
    assert_eq!(out[0].size, 7);
    assert_eq!(out[1].path, "dir/sub/");
    assert!(out[1].is_dir);
}

#[test]
fn query_without_leading_slash_is_the_same_directory() {
    let raw = vec![dir("dir/"), file("dir/x.txt", 7), file("dir/sub/y.txt", 9)];
    assert_eq!(filter_direct_children("dir", &raw), filter_direct_children("/dir", &raw));
}

#[test]
fn query_with_trailing_slash_sees_bare_names() {
    let raw = vec![dir("dir/"), file("dir/x.txt", 7), dir("dir/sub/"), file("dir/sub/y.txt", 9)];
    let out = filter_direct_children("/dir/", &raw);
    assert_eq!(names(&out), vec!["x.txt".to_string(), "sub".to_string()]);
}

#[test]
fn only_one_leading_slash_is_dropped_from_the_query() {
    // "//dir" has the prefix "/dir", which "dir/x.txt" does not start with:
    // the whole path is then taken, and it lies two segments deep.
    let raw = vec![file("dir/x.txt", 7), file("/dir/y", 1)];
    let out = filter_direct_children("//dir", &raw);
    assert_eq!(names(&out), vec!["y".to_string()]);
    assert_eq!(prefix_of_query("//dir"), vec!['/', 'd', 'i', 'r']);
}

#[test]
fn prefix_of_root_and_of_empty_query_is_empty() {
    assert_eq!(prefix_of_query("/"), Vec::<char>::new());
    assert_eq!(prefix_of_query(""), Vec::<char>::new());
    assert_eq!(prefix_of_query("/a/b"), vec!['a', '/', 'b']);
    assert_eq!(prefix_of_query("a"), vec!['a']);
}

#[test]
fn self_entry_is_left_out() {
    assert_eq!(direct_child_name("/dir", "dir"), None);
    assert_eq!(direct_child_name("/dir", "dir/"), None);
    assert_eq!(direct_child_name("/", ""), None);
    assert_eq!(direct_child_name("/", "/"), None);
}

#[test]
fn direct_child_is_named_by_its_segment() {
    assert_eq!(direct_child_name("/dir", "dir/x.txt"), Some("x.txt".to_string()));
    assert_eq!(direct_child_name("/dir", "dir/sub/"), Some("sub".to_string()));
    assert_eq!(direct_child_name("/", "a"), Some("a".to_string()));
    assert_eq!(direct_child_name("/", "/a"), Some("a".to_string()));
    assert_eq!(direct_child_name("/", "/a/"), Some("a".to_string()));
}

#[test]
fn nested_entry_is_left_out() {
    assert_eq!(direct_child_name("/dir", "dir/sub/y.txt"), None);
    assert_eq!(direct_child_name("/", "b/c"), None);
    assert_eq!(direct_child_name("/", "a/b/c/"), None);
}

#[test]
fn only_one_slash_is_trimmed_at_each_end() {
    assert_eq!(direct_child_name("/", "//a"), None);
    assert_eq!(direct_child_name("/", "a//"), None);
    assert_eq!(direct_child_name("/dir", "dir//x"), None);
}

#[test]
fn empty_name_is_never_given() {
    assert_eq!(direct_child_name("/", "//"), None);
    assert_eq!(direct_child_name("/dir", "dir//"), None);
    let raw = vec![file("", 0), dir("/"), dir("//"), dir("///"), file("a", 1)];
    let out = filter_direct_children("/", &raw);
    assert_eq!(names(&out), vec!["a".to_string()]);
    assert!(out.iter().all(|e| !e.name.is_empty()));
}

#[test]
fn path_outside_the_prefix_is_taken_whole() {
    assert_eq!(direct_child_name("/dir", "other"), Some("other".to_string()));
    assert_eq!(direct_child_name("/dir", "other/x"), None);
    // The prefix is compared by characters, not by segments.
    assert_eq!(direct_child_name("/dir", "directory"), Some("ectory".to_string()));
}

#[test]
fn names_keep_characters_beyond_ascii() {
    assert_eq!(direct_child_name("/données", "données/été.txt"), Some("été.txt".to_string()));
    assert_eq!(direct_child_name("/", "日本語/"), Some("日本語".to_string()));
    assert_eq!(direct_child_name("/日本", "日本/語/x"), None);
}

#[test]
fn order_size_and_fields_are_kept() {
    let raw = vec![
        RawEntry {
            path: "d/z".to_string(),
            size: 30,
            is_dir: false,
            last_modified: Some("2024-01-01 00:00:00 UTC".to_string()),
        },
        file("d/deep/er", 2),
        dir("d/a/"),
        file("d/m", 10),
    ];
    let out = filter_direct_children("d", &raw);
    assert!(out.len() <= raw.len());
    assert_eq!(names(&out), vec!["z".to_string(), "a".to_string(), "m".to_string()]);
    assert_eq!(out[0].last_modified, Some("2024-01-01 00:00:00 UTC".to_string()));
    assert_eq!(out[0].size, 30);
    assert_eq!(out[1].last_modified, None);
    assert!(out[1].is_dir);
    assert_eq!(out[2].path, "d/m");
}

#[test]
fn filtering_twice_changes_nothing() {
    let raw = vec![dir("dir/"), file("dir/x.txt", 7), dir("dir/sub/"), file("dir/sub/y.txt", 9)];
    let once = filter_direct_children("/dir", &raw);
    let again: Vec<RawEntry> = once.iter().map(|e| e.raw()).collect();
    let twice = filter_direct_children("/dir", &again);
    assert_eq!(twice, once);
}

#[test]
fn empty_listing_gives_no_entries() {
    assert_eq!(filter_direct_children("/dir", &Vec::new()), Vec::<FileEntry>::new());
}

#[test]
fn equal_raw_entries_are_each_kept() {
    let raw = vec![file("a", 1), file("a", 1)];
    let out = filter_direct_children("/", &raw);
    assert_eq!(out.len(), 2);
    assert_eq!(out[0], out[1]);
}
