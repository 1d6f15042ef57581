use fileport::rpath::{file_name, join, parent};

#[test]
fn join_handles_root_and_trailing_slash() {
    assert_eq!(join("/", "a"), "/a");
    assert_eq!(join("", "a"), "/a");
    assert_eq!(join("/x", "a"), "/x/a");
    assert_eq!(join("/x/", "a"), "/x/a");
}

#[test]
fn parent_walks_up_to_root() {
    assert_eq!(parent("/a/b"), "/a");
    assert_eq!(parent("/a"), "/");
    assert_eq!(parent("/"), "/");
    assert_eq!(parent("/a/b/"), "/a");
}

#[test]
fn file_name_takes_last_component() {
    assert_eq!(file_name("/a/b.txt"), "b.txt");
    assert_eq!(file_name("/a/dir/"), "dir");
}

#[test]
fn join_trims_every_trailing_slash() {
    assert_eq!(join("/x///", "a"), "/x/a");
    assert_eq!(join("//", "a"), "/a");
    assert_eq!(join("rel", "a"), "rel/a");
}

#[test]
fn parent_of_edge_paths() {
    assert_eq!(parent(""), "/");
    assert_eq!(parent("a"), "/");
    assert_eq!(parent("//"), "/");
    assert_eq!(parent("/a/b/c///"), "/a/b");
    assert_eq!(parent("/ä/ö"), "/ä");
}

#[test]
fn file_name_of_edge_paths() {
    assert_eq!(file_name(""), "");
    assert_eq!(file_name("/"), "");
    assert_eq!(file_name("plain"), "plain");
    assert_eq!(file_name("/it test/file ä.bin"), "file ä.bin");
}

#[test]
fn file_name_and_parent_undo_join() {
    for dir in ["/", "", "/x", "/x/", "/a/b//", "rel"] {
        for name in ["a", "b.txt", "file ä.bin"] {
            let joined = join(dir, name);
            assert_eq!(file_name(&joined), name);
            let trimmed = dir.trim_end_matches('/');
            let expected = if trimmed.is_empty() { "/" } else { trimmed };
            assert_eq!(parent(&joined), expected);
        }
    }
}
