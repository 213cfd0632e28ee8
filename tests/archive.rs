use std::path::PathBuf;

use un7z::scan::collect_archives;
use un7z::{Archive, ArchiveType};

#[test]
fn test_archive_new_and_extract_dir() {
    // Archive in subdirectory: extract_dir should be parent/base_name
    let archive = Archive::new(String::from("a/b/c/archive.7z.001")).unwrap();
    assert_eq!(archive.base_name, "archive");
    assert_eq!(archive.archive_type, ArchiveType::SevenZip);
    let extract_dir = archive.extract_dir();
    assert_eq!(PathBuf::from(extract_dir), PathBuf::from("a/b/c/archive"));

    // Tar.gz in root
    let archive2 = Archive::new(String::from("foo.tar.gz")).unwrap();
    assert_eq!(archive2.base_name, "foo");
    assert_eq!(archive2.archive_type, ArchiveType::TarGz);
    let extract_dir2 = archive2.extract_dir();
    assert_eq!(PathBuf::from(extract_dir2), PathBuf::from("foo"));

    // Unrecognized extensions return None
    assert!(Archive::new(String::from("other.txt")).is_none());
}

fn parsed(name: &str) -> Option<(ArchiveType, String)> {
    Archive::parse_type(name)
}

#[test]
fn parse_type_recognises_every_suffix() {
    assert_eq!(parsed("archive.7z.001"), Some((ArchiveType::SevenZip, String::from("archive"))));
    assert_eq!(parsed("data.zip.001"), Some((ArchiveType::Zip, String::from("data"))));
    assert_eq!(parsed("foo.tar.gz"), Some((ArchiveType::TarGz, String::from("foo"))));
    assert_eq!(parsed("foo.tgz"), Some((ArchiveType::TarGz, String::from("foo"))));
    assert_eq!(parsed("movie.part01.rar"), Some((ArchiveType::Rar, String::from("movie"))));
    assert_eq!(parsed("movie.part001.rar"), Some((ArchiveType::Rar, String::from("movie"))));
}

#[test]
fn parse_type_rejects_other_names() {
    assert_eq!(parsed("other.txt"), None);
    assert_eq!(parsed("archive.7z.002"), None);
    assert_eq!(parsed("movie.part02.rar"), None);
    assert_eq!(parsed("plain.rar"), None);
    assert_eq!(parsed(""), None);
}

#[test]
fn parse_type_is_case_sensitive() {
    assert_eq!(parsed("FOO.TAR.GZ"), None);
    assert_eq!(parsed("x.7Z.001"), None);
}

#[test]
fn parse_type_strips_only_the_suffix() {
    assert_eq!(parsed("a.tar.gz.7z.001"), Some((ArchiveType::SevenZip, String::from("a.tar.gz"))));
    assert_eq!(parsed(".tgz"), Some((ArchiveType::TarGz, String::new())));
    assert_eq!(parsed("été.zip.001"), Some((ArchiveType::Zip, String::from("été"))));
}

#[test]
fn new_keeps_path_and_reads_file_name_only() {
    let a = Archive::new(String::from("/srv/x.tgz/inner.part01.rar")).unwrap();
    assert_eq!(a.path, "/srv/x.tgz/inner.part01.rar");
    assert_eq!(a.base_name, "inner");
    assert_eq!(a.archive_type, ArchiveType::Rar);
    assert!(Archive::new(String::from("dir.7z.001/notes.txt")).is_none());
    assert!(Archive::new(String::from("dir/")).is_none());
}

#[test]
fn extract_dir_is_sibling_of_archive() {
    let a = Archive::new(String::from("/data/in/pack.zip.001")).unwrap();
    assert_eq!(a.extract_dir(), "/data/in/pack");
    let b = Archive::new(String::from("/top.tgz")).unwrap();
    assert_eq!(b.extract_dir(), "/top");
}

#[test]
fn file_name_and_directory() {
    assert_eq!(Archive::file_name_of(&String::from("a/b/c.tgz")), "c.tgz");
    assert_eq!(Archive::file_name_of(&String::from("c.tgz")), "c.tgz");
    let a = Archive::new(String::from("a/b/c.tgz")).unwrap();
    assert_eq!(a.directory(), "a/b/");
    let b = Archive::new(String::from("c.tgz")).unwrap();
    assert_eq!(b.directory(), ".");
}

#[test]
fn failure_log_entry_is_path_and_newline() {
    let a = Archive::new(String::from("/x/y.7z.001")).unwrap();
    assert_eq!(a.failure_log_entry(), "/x/y.7z.001\n");
}

#[test]
fn labels_of_kinds() {
    assert_eq!(ArchiveType::SevenZip.label(), "7z");
    assert_eq!(ArchiveType::Zip.label(), "zip");
    assert_eq!(ArchiveType::Rar.label(), "rar");
    assert_eq!(ArchiveType::TarGz.label(), "tar.gz");
}

#[test]
fn collect_archives_filters_and_sorts_by_base_name() {
    let paths = vec![
        String::from("/r/zeta.tgz"),
        String::from("/r/readme.txt"),
        String::from("/r/sub/alpha.7z.001"),
        String::from("/r/alpha.7z.002"),
        String::from("/r/beta.part01.rar"),
        String::from("/r/other/alpha.zip.001"),
    ];
    let found = collect_archives(paths);
    let listed: Vec<(&str, &str)> =
        found.iter().map(|a| (a.base_name.as_str(), a.path.as_str())).collect();
    assert_eq!(
        listed,
        vec![
            ("alpha", "/r/sub/alpha.7z.001"),
            ("alpha", "/r/other/alpha.zip.001"),
            ("beta", "/r/beta.part01.rar"),
            ("zeta", "/r/zeta.tgz"),
        ]
    );
}

#[test]
fn collect_archives_orders_like_string_comparison() {
    let paths = vec![
        String::from("b.tgz"),
        String::from("B.tgz"),
        String::from("ab.tgz"),
        String::from("a.tgz"),
        String::from("é.tgz"),
    ];
    let found = collect_archives(paths);
    let names: Vec<&str> = found.iter().map(|a| a.base_name.as_str()).collect();
    let mut expected = vec!["b", "B", "ab", "a", "é"];
    expected.sort();
    assert_eq!(names, expected);
    assert!(collect_archives(Vec::new()).is_empty());
}
