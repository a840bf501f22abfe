use heliosav_layers::paths::{extension_of, file_name_of};
use std::path::Path;

#[test]
fn unix_names_are_those_of_std() {
    for path in [
        "", "/", ".", "..", "a", "a/", "a/.", "./a", "a/..", "/a/b.c", "a//b", ".hidden", "a.b.c",
        "a.", "/.", "./.", "a/./", "..a", "x/.bashrc", "x/y.tar.gz//", "C:\\a\\b.exe",
    ] {
        let name = Path::new(path).file_name().map(|n| n.to_string_lossy().to_string());
        assert_eq!(file_name_of(path, false), name, "{path}");
        let extension = Path::new(path).extension().map(|e| e.to_string_lossy().to_string());
        assert_eq!(extension_of(path, false), extension, "{path}");
    }
}

#[test]
fn windows_names_know_drives_and_shares() {
    let name = |path: &str| file_name_of(path, true);
    assert_eq!(name(r"C:\a\b.exe").as_deref(), Some("b.exe"));
    assert_eq!(name(r"C:/a\b.exe/").as_deref(), Some("b.exe"));
    assert_eq!(name("C:b.exe").as_deref(), Some("b.exe"));
    assert_eq!(name(r"C:\"), None);
    assert_eq!(name("C:"), None);
    assert_eq!(name(r"\\server\share\b.exe").as_deref(), Some("b.exe"));
    assert_eq!(name(r"\\server\share"), None);
    assert_eq!(name(r"\\server").as_deref(), Some("server"));
    assert_eq!(extension_of(r"C:\a.b\c", true), None);
    assert_eq!(extension_of(r"C:\a.b\c.dll", true).as_deref(), Some("dll"));
}
