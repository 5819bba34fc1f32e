use rug::fetch::{file_name_from_path, ARCHIVE_URL, CACHE_PREFIX};

#[test]
fn file_name_is_last_segment() {
    assert_eq!(
        file_name_from_path("/lewis6991/gitsigns.nvim/archive/refs/heads/main.tar.gz"),
        "main.tar.gz"
    );
    assert_eq!(file_name_from_path("/file"), "file");
    assert_eq!(file_name_from_path("/a//b"), "b");
}

#[test]
fn file_name_falls_back_when_last_segment_is_empty() {
    assert_eq!(file_name_from_path("/"), "tmp.bin");
    assert_eq!(file_name_from_path("/a/b/"), "tmp.bin");
}

#[test]
fn file_name_falls_back_without_segments() {
    assert_eq!(file_name_from_path(""), "tmp.bin");
    assert_eq!(file_name_from_path("no-slash"), "tmp.bin");
    assert_eq!(file_name_from_path("a/b"), "tmp.bin");
}

#[test]
fn file_name_of_non_ascii_segment() {
    assert_eq!(file_name_from_path("/d\u{e9}j\u{e0}/v\u{fc}.tgz"), "v\u{fc}.tgz");
}

#[test]
fn fetch_constants() {
    assert_eq!(
        ARCHIVE_URL,
        "https://github.com/lewis6991/gitsigns.nvim/archive/refs/heads/main.tar.gz"
    );
    assert_eq!(CACHE_PREFIX, "rug-cache");
}
