use unzip::format::ArchiveFormat;

#[test]
fn test_archive_format_from_path() {
    assert_eq!(ArchiveFormat::from_path("test.tar.gz.zip"), ArchiveFormat::Zip);
    assert_eq!(ArchiveFormat::from_path("test.tar.bz2"), ArchiveFormat::TarBz2);
    assert_eq!(ArchiveFormat::from_path("test.tar.xz"), ArchiveFormat::TarXz);
    assert_eq!(ArchiveFormat::from_path("test.tgz"), ArchiveFormat::TarGz);
    assert_eq!(ArchiveFormat::from_path("test.tbz2"), ArchiveFormat::TarBz2);
    assert_eq!(ArchiveFormat::from_path("test.tbz"), ArchiveFormat::TarBz2);
    assert_eq!(ArchiveFormat::from_path("test.zip"), ArchiveFormat::Zip);
    assert_eq!(ArchiveFormat::from_path("test.tar"), ArchiveFormat::Tar);
    assert_eq!(ArchiveFormat::from_path("test.gz"), ArchiveFormat::Gz);
    assert_eq!(ArchiveFormat::from_path("test.bz2"), ArchiveFormat::Bz2);
    assert_eq!(ArchiveFormat::from_path("test.7z"), ArchiveFormat::SevenZip);
    assert_eq!(ArchiveFormat::from_path("test.rar"), ArchiveFormat::Rar);
    assert_eq!(ArchiveFormat::from_path("test.unknown"), ArchiveFormat::Unknown);
    assert_eq!(ArchiveFormat::from_path(""), ArchiveFormat::Unknown);
    assert_eq!(ArchiveFormat::from_path(".hidden"), ArchiveFormat::Unknown);
}

#[test]
fn test_format_case_insensitive() {
    assert_eq!(ArchiveFormat::from_path("TEST.TAR.GZ"), ArchiveFormat::TarGz);
    assert_eq!(ArchiveFormat::from_path("Test.Zip"), ArchiveFormat::Zip);
    assert_eq!(ArchiveFormat::from_path("A.RAR"), ArchiveFormat::Rar);
    assert_eq!(ArchiveFormat::from_path("b.TBZ2"), ArchiveFormat::TarBz2);
    assert_eq!(ArchiveFormat::from_path("c.7Z"), ArchiveFormat::SevenZip);
}

#[test]
fn test_format_uses_final_component() {
    assert_eq!(ArchiveFormat::from_path("dir/sub/a.tar.bz2"), ArchiveFormat::TarBz2);
    assert_eq!(ArchiveFormat::from_path("/abs/path/x.zip"), ArchiveFormat::Zip);
    assert_eq!(ArchiveFormat::from_path("dir.zip/file"), ArchiveFormat::Unknown);
}

#[test]
fn test_format_compound_beats_single() {
    assert_eq!(ArchiveFormat::from_path("a.tar.gz"), ArchiveFormat::TarGz);
    assert_ne!(ArchiveFormat::from_path("a.tar.gz"), ArchiveFormat::Gz);
    assert_eq!(ArchiveFormat::from_path("a.tar.xz"), ArchiveFormat::TarXz);
}
