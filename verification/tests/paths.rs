use filebatch::join_path;
use filebatch::parent_of;

#[test]
fn join_inserts_separator() {
    assert_eq!(join_path("/tmp/proj", "src/main.txt"), "/tmp/proj/src/main.txt");
}

#[test]
fn join_keeps_existing_separator() {
    assert_eq!(join_path("/tmp/proj/", "a.txt"), "/tmp/proj/a.txt");
}

#[test]
fn join_absolute_rel_replaces_base() {
    assert_eq!(join_path("/tmp/proj", "/etc/motd"), "/etc/motd");
}

#[test]
fn join_empty_base_keeps_rel() {
    assert_eq!(join_path("", "a.txt"), "a.txt");
}

#[test]
fn join_empty_rel_adds_separator() {
    assert_eq!(join_path("/tmp", ""), "/tmp/");
}

#[test]
fn join_honors_parent_segments() {
    assert_eq!(join_path("/base", "../escape.txt"), "/base/../escape.txt");
}

#[test]
fn parent_of_nested_file() {
    assert_eq!(parent_of("/tmp/proj/src/main.txt"), Some("/tmp/proj/src".to_string()));
}

#[test]
fn parent_of_bare_name_is_empty() {
    assert_eq!(parent_of("main.txt"), Some(String::new()));
}

#[test]
fn parent_of_top_level_file_is_root() {
    assert_eq!(parent_of("/a"), Some("/".to_string()));
}

#[test]
fn parent_of_root_is_none() {
    assert_eq!(parent_of("/"), None);
    assert_eq!(parent_of("///"), None);
}

#[test]
fn parent_of_empty_is_none() {
    assert_eq!(parent_of(""), None);
}

#[test]
fn parent_skips_repeated_separators() {
    assert_eq!(parent_of("a//b"), Some("a".to_string()));
}

#[test]
fn parent_ignores_trailing_separators() {
    assert_eq!(parent_of("a/b/"), Some("a".to_string()));
}
