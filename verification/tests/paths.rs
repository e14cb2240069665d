use condenser::paths::is_absolute;
use condenser::paths::join;
use condenser::paths::strip_extension;
use condenser::paths::with_extension;

#[test]
fn with_extension_replaces_extension() {
    assert_eq!(with_extension("song.flac", "ogg"), "song.ogg");
    assert_eq!(with_extension("a/b/song.flac", "ogg"), "a/b/song.ogg");
    assert_eq!(with_extension("song", "ogg"), "song.ogg");
    assert_eq!(with_extension("archive.tar.gz", "xz"), "archive.tar.xz");
}

#[test]
fn strip_extension_removes_the_last_extension() {
    assert_eq!(strip_extension("song.flac"), "song");
    assert_eq!(strip_extension("a/b/song.flac"), "a/b/song");
    assert_eq!(strip_extension("archive.tar.gz"), "archive.tar");
    assert_eq!(strip_extension("noext"), "noext");
}

#[test]
fn leading_dot_names_have_no_extension() {
    assert_eq!(strip_extension(".hidden"), ".hidden");
    assert_eq!(strip_extension("dir/.hidden"), "dir/.hidden");
    assert_eq!(strip_extension(".hidden.bak"), ".hidden");
}

#[test]
fn dots_in_directories_are_not_extensions() {
    assert_eq!(strip_extension("dir.d/file"), "dir.d/file");
    assert_eq!(with_extension("dir.d/file", "txt"), "dir.d/file.txt");
}

#[test]
fn join_inserts_a_separator_when_needed() {
    assert_eq!(join("/a", "b/c"), "/a/b/c");
    assert_eq!(join("/a/", "b"), "/a/b");
    assert_eq!(join("", "b"), "b");
}

#[test]
fn absolute_paths_start_with_the_separator() {
    assert!(is_absolute("/a/b"));
    assert!(!is_absolute("a/b"));
    assert!(!is_absolute(""));
}
