use markdown_viewer::file_browser::{arrange_entries, is_hidden_path, DirEntry};
use markdown_viewer::{FileBrowser, TreeNode};

fn dir_node(path: &str) -> TreeNode {
    TreeNode::Dir { path: path.to_string(), children: vec![], expanded: true }
}

fn entry(path: &str, is_dir: bool) -> DirEntry {
    DirEntry { path: path.to_string(), is_dir }
}

#[test]
fn test_file_browser_add_path() {
    let mut browser = FileBrowser::default();
    let dir = tempfile::tempdir().unwrap();
    let path = dir.path().to_str().unwrap().to_string();
    assert!(browser.add_path(dir_node(&path)));
    assert_eq!(browser.roots.len(), 1);
    // Duplicate should not be added
    assert!(!browser.add_path(dir_node(&path)));
    assert_eq!(browser.roots.len(), 1);
}

#[test]
fn test_file_browser_remove_root() {
    let mut browser = FileBrowser::default();
    let dir = tempfile::tempdir().unwrap();
    let path = dir.path().to_str().unwrap().to_string();
    browser.add_path(dir_node(&path));
    browser.remove_root(0);
    assert!(browser.roots.is_empty());
}

#[test]
fn browser_starts_visible_and_empty() {
    let browser = FileBrowser::default();
    assert!(browser.visible);
    assert!(browser.roots.is_empty());
}

#[test]
fn add_path_refuses_an_equivalent_path() {
    let mut browser = FileBrowser::default();
    assert!(browser.add_path(dir_node("/home/me/notes")));
    assert!(!browser.add_path(dir_node("/home/me//notes/")));
    assert!(!browser.add_path(TreeNode::File("/home/me/notes".to_string())));
    assert!(browser.add_path(TreeNode::File("/home/me/notes/a.md".to_string())));
    assert_eq!(browser.roots.len(), 2);
}

#[test]
fn remove_root_out_of_range_changes_nothing() {
    let mut browser = FileBrowser::default();
    browser.add_path(dir_node("/a"));
    browser.add_path(dir_node("/b"));
    browser.remove_root(5);
    assert_eq!(browser.roots.len(), 2);
    browser.remove_root(0);
    assert_eq!(browser.roots.len(), 1);
    assert_eq!(browser.roots[0].path(), "/b");
}

#[test]
fn tree_node_name_and_kind() {
    let file = TreeNode::File("/notes/today.md".to_string());
    assert_eq!(file.name(), "today.md");
    assert_eq!(file.path(), "/notes/today.md");
    assert!(!file.is_dir());
    let dir = dir_node("/notes/archive");
    assert_eq!(dir.name(), "archive");
    assert!(dir.is_dir());
    assert_eq!(dir_node("/").name(), "");
}

#[test]
fn hidden_paths_start_with_a_dot() {
    assert!(is_hidden_path("/tmp/x/.hidden.md"));
    assert!(is_hidden_path(".git"));
    assert!(!is_hidden_path("/tmp/.x/visible.md"));
    assert!(!is_hidden_path("/"));
}

#[test]
fn arrange_entries_drops_hidden_and_non_markdown_and_sorts() {
    let entries = vec![
        entry("/d/zeta.md", false),
        entry("/d/.hidden.md", false),
        entry("/d/sub", true),
        entry("/d/ignored.txt", false),
        entry("/d/alpha.md", false),
        entry("/d/.git", true),
        entry("/d/another", true),
    ];
    let (dirs, files) = arrange_entries(&entries);
    assert_eq!(dirs, vec!["/d/another", "/d/sub"]);
    assert_eq!(files, vec!["/d/alpha.md", "/d/zeta.md"]);
}

#[test]
fn arrange_entries_of_only_hidden_files_is_empty() {
    let entries = vec![entry("/d/.a.md", false), entry("/d/.b", true)];
    let (dirs, files) = arrange_entries(&entries);
    assert!(dirs.is_empty());
    assert!(files.is_empty());
}

#[test]
fn contains_path_compares_paths_not_text() {
    let mut browser = FileBrowser::default();
    assert!(!browser.contains_path("/srv/docs"));
    browser.add_path(dir_node("/srv/docs"));
    assert!(browser.contains_path("/srv/docs"));
    assert!(browser.contains_path("/srv//docs/"));
    assert!(!browser.contains_path("/srv/doc"));
}
