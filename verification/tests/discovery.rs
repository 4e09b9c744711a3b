use image_cropper::file_ops::{
    get_all_image_paths, get_file_paths_with_extensions, get_sub_directories, FsEntry,
};

fn file(path: &str) -> FsEntry {
    FsEntry::File { path: path.to_string() }
}

fn dir(path: &str, entries: Vec<FsEntry>) -> FsEntry {
    FsEntry::Dir { path: path.to_string(), readable: true, entries }
}

fn unreadable_dir(path: &str) -> FsEntry {
    FsEntry::Dir { path: path.to_string(), readable: false, entries: vec![] }
}

fn exts(names: &[&str]) -> Vec<String> {
    names.iter().map(|s| s.to_string()).collect()
}

#[test]
fn end_to_end_scenario() {
    let tree = dir(
        "/data",
        vec![
            file("/data/a.jpg"),
            dir("/data/sub", vec![file("/data/sub/b.png")]),
            file("/data/c.txt"),
        ],
    );
    let r = get_file_paths_with_extensions(&tree, &exts(&["jpg", "png"]));
    assert_eq!(r.files.len(), 2);
    assert!(r.files.contains(&"/data/a.jpg".to_string()));
    assert!(r.files.contains(&"/data/sub/b.png".to_string()));
    assert!(!r.files.contains(&"/data/c.txt".to_string()));
    assert!(r.skipped.is_empty());
}

#[test]
fn discover_is_idempotent() {
    let tree = dir(
        "/root",
        vec![
            file("/root/one.png"),
            dir("/root/nested", vec![file("/root/nested/two.jpg"), file("/root/nested/three.md")]),
        ],
    );
    let e = exts(&["png", "jpg"]);
    let mut first = get_file_paths_with_extensions(&tree, &e).files;
    let mut second = get_file_paths_with_extensions(&tree, &e).files;
    first.sort();
    second.sort();
    assert_eq!(first, second);
}

#[test]
fn discover_deep_nesting() {
    let tree = dir(
        "/a",
        vec![dir(
            "/a/b",
            vec![dir("/a/b/c", vec![dir("/a/b/c/d", vec![file("/a/b/c/d/deep.jpeg")])])],
        )],
    );
    let r = get_all_image_paths(&tree);
    assert_eq!(r.files, vec!["/a/b/c/d/deep.jpeg".to_string()]);
}

#[test]
fn discover_default_extensions() {
    let tree = dir(
        "/pics",
        vec![
            file("/pics/a.jpg"),
            file("/pics/b.png"),
            file("/pics/c.jpeg"),
            file("/pics/d.gif"),
            file("/pics/e"),
        ],
    );
    let r = get_all_image_paths(&tree);
    assert_eq!(
        r.files,
        vec![
            "/pics/a.jpg".to_string(),
            "/pics/b.png".to_string(),
            "/pics/c.jpeg".to_string(),
        ]
    );
}

#[test]
fn discover_is_case_sensitive() {
    let tree = dir("/pics", vec![file("/pics/loud.JPG"), file("/pics/quiet.jpg")]);
    let r = get_file_paths_with_extensions(&tree, &exts(&["jpg"]));
    assert_eq!(r.files, vec!["/pics/quiet.jpg".to_string()]);
}

#[test]
fn discover_ignores_files_without_extension() {
    let tree = dir("/pics", vec![file("/pics/README"), file("/pics/.hidden")]);
    let r = get_file_paths_with_extensions(&tree, &exts(&["jpg", "png", "jpeg"]));
    assert!(r.files.is_empty());
}

#[test]
fn discover_on_non_directory_root_is_empty() {
    let root = file("/data/alone.jpg");
    let r = get_file_paths_with_extensions(&root, &exts(&["jpg"]));
    assert!(r.files.is_empty());
    assert!(r.skipped.is_empty());
}

#[test]
fn discover_skips_unreadable_subtree() {
    let tree = dir(
        "/data",
        vec![
            file("/data/a.jpg"),
            unreadable_dir("/data/locked"),
            dir("/data/open", vec![file("/data/open/b.jpg")]),
        ],
    );
    let r = get_all_image_paths(&tree);
    assert_eq!(r.files, vec!["/data/a.jpg".to_string(), "/data/open/b.jpg".to_string()]);
    assert_eq!(r.skipped, vec!["/data/locked".to_string()]);
}

#[test]
fn discover_on_unreadable_root() {
    let root = unreadable_dir("/data");
    let r = get_all_image_paths(&root);
    assert!(r.files.is_empty());
    assert_eq!(r.skipped, vec!["/data".to_string()]);
}

#[test]
fn subdirectories_are_direct_children_only() {
    let tree = dir(
        "/data",
        vec![
            file("/data/a.jpg"),
            dir("/data/sub", vec![dir("/data/sub/grandchild", vec![])]),
            dir("/data/other", vec![]),
        ],
    );
    let subs = get_sub_directories(&tree);
    assert_eq!(subs, vec!["/data/sub".to_string(), "/data/other".to_string()]);
}

#[test]
fn subdirectories_of_non_directory_is_empty() {
    let root = file("/data/a.jpg");
    assert!(get_sub_directories(&root).is_empty());
}

#[test]
fn subdirectories_of_empty_directory_is_empty() {
    let root = dir("/data", vec![]);
    assert!(get_sub_directories(&root).is_empty());
}

#[test]
fn subdirectories_of_unreadable_directory_is_empty() {
    let root = unreadable_dir("/data");
    assert!(get_sub_directories(&root).is_empty());
}
