use markdown_viewer::file_loader::MAX_FILE_SIZE;
use markdown_viewer::{FileLoader, LoadError};

#[test]
fn test_is_markdown_extension_md() {
    assert!(FileLoader::is_markdown_file("test.md"));
}

#[test]
fn test_is_markdown_extension_markdown() {
    assert!(FileLoader::is_markdown_file("test.markdown"));
}

#[test]
fn test_is_markdown_extension_case_insensitive() {
    assert!(FileLoader::is_markdown_file("test.MD"));
    assert!(FileLoader::is_markdown_file("test.Md"));
}

#[test]
fn test_not_markdown_extension() {
    assert!(!FileLoader::is_markdown_file("test.txt"));
    assert!(!FileLoader::is_markdown_file("test.rs"));
    assert!(!FileLoader::is_markdown_file("test.html"));
}

#[test]
fn test_no_extension() {
    assert!(!FileLoader::is_markdown_file("README"));
}

#[test]
fn test_file_title_extracts_filename() {
    assert_eq!(FileLoader::file_title("/home/user/notes.md"), "notes.md");
}

#[test]
fn test_file_title_root_path() {
    assert_eq!(FileLoader::file_title("/"), "Untitled");
}

#[test]
fn other_markdown_extensions_are_recognised() {
    assert!(FileLoader::is_markdown_file("a/b/notes.mdown"));
    assert!(FileLoader::is_markdown_file("x.mkd"));
    assert!(FileLoader::is_markdown_file("page.MDX"));
    assert!(!FileLoader::is_markdown_file(".md"));
    assert!(!FileLoader::is_markdown_file("archive.md.gz"));
}

#[test]
fn file_title_of_relative_and_parent_paths() {
    assert_eq!(FileLoader::file_title("notes.md"), "notes.md");
    assert_eq!(FileLoader::file_title("docs/.."), "Untitled");
    assert_eq!(FileLoader::file_title("/tmp/dir/"), "dir");
}

#[test]
fn size_limit_is_fifty_megabytes() {
    assert_eq!(MAX_FILE_SIZE, 50 * 1024 * 1024);
    assert!(FileLoader::check_size(0).is_ok());
    assert!(FileLoader::check_size(MAX_FILE_SIZE).is_ok());
    assert!(matches!(FileLoader::check_size(MAX_FILE_SIZE + 1), Err(LoadError::TooLarge)));
}

#[test]
fn decode_keeps_utf8_content() {
    let text = "# Unicode: 日本語 emoji 🦀\n";
    let decoded = FileLoader::decode(text.as_bytes().to_vec()).unwrap();
    assert_eq!(decoded, text);
    assert!(decoded.contains("日本語"));
    assert!(decoded.contains("🦀"));
}

#[test]
fn decode_rejects_invalid_utf8() {
    let bytes = vec![b'#', b' ', 0xff, 0xfe, b'x'];
    assert!(matches!(FileLoader::decode(bytes), Err(LoadError::Encoding)));
    assert!(matches!(FileLoader::decode(vec![0xe6, 0x97]), Err(LoadError::Encoding)));
}

#[test]
fn decode_of_empty_file_is_empty_text() {
    assert_eq!(FileLoader::decode(Vec::new()).unwrap(), "");
}
