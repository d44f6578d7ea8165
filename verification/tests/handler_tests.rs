use unzip::entry::RawEntry;
use unzip::errors::ArchiveError;
use unzip::format::ArchiveFormat;
use unzip::handlers::{
    create_handler, ArchiveHandler, ExtractAction, Handler, RarHandler, SevenZipHandler,
    TarCodec, TarHandler, ZipHandler,
};

fn rec(path: &str, is_dir: bool, size: u64) -> RawEntry {
    RawEntry { path: path.to_string(), is_dir, size, mtime: None }
}

fn zip() -> ZipHandler {
    ZipHandler { archive_path: "a.zip".to_string(), password: String::new() }
}

#[test]
fn test_create_handler_mapping() {
    assert!(matches!(
        create_handler("a.zip", ArchiveFormat::Zip, String::new()),
        Handler::Zip(_)
    ));
    assert!(matches!(
        create_handler("a.bin", ArchiveFormat::Unknown, String::new()),
        Handler::Zip(_)
    ));
    assert!(matches!(
        create_handler("a.7z", ArchiveFormat::SevenZip, String::new()),
        Handler::SevenZip(_)
    ));
    assert!(matches!(
        create_handler("a.rar", ArchiveFormat::Rar, String::new()),
        Handler::Rar(_)
    ));
    match create_handler("a.gz", ArchiveFormat::Gz, "pw".to_string()) {
        Handler::Tar(t) => {
            assert_eq!(t.archive_format, ArchiveFormat::Gz);
            assert_eq!(t.archive_path, "a.gz");
            assert_eq!(t.password, "pw");
        }
        _ => panic!("expected the tar adapter"),
    }
}

#[test]
fn test_tar_codec_selection() {
    let mk = |f: ArchiveFormat| TarHandler {
        archive_path: "a".to_string(),
        password: String::new(),
        archive_format: f,
    };
    assert_eq!(mk(ArchiveFormat::Tar).codec().unwrap(), TarCodec::Plain);
    assert_eq!(mk(ArchiveFormat::TarGz).codec().unwrap(), TarCodec::Gzip);
    assert_eq!(mk(ArchiveFormat::TarBz2).codec().unwrap(), TarCodec::Bzip2);
    assert_eq!(mk(ArchiveFormat::TarXz).codec().unwrap(), TarCodec::Xz);
    assert!(matches!(
        mk(ArchiveFormat::Gz).codec(),
        Err(ArchiveError::UnsupportedOrCorruptArchive(_))
    ));
}

#[test]
fn test_tar_unsupported_format_listing() {
    let t = TarHandler {
        archive_path: "a.gz".to_string(),
        password: String::new(),
        archive_format: ArchiveFormat::Gz,
    };
    assert!(matches!(
        t.list_files(&vec![rec("a.txt", false, 1)]),
        Err(ArchiveError::UnsupportedOrCorruptArchive(_))
    ));
    assert!(matches!(
        t.extract(&vec![rec("a.txt", false, 1)], "out"),
        Err(ArchiveError::UnsupportedOrCorruptArchive(_))
    ));
}

#[test]
fn test_zip_listing_skips_metadata() {
    let records = vec![rec("a.txt", false, 1), rec("__MACOSX/a.txt", false, 1)];
    let forest = zip().list_files(&records).unwrap();
    assert_eq!(forest.len(), 1);
    assert_eq!(forest[0].item.path, "a.txt");
}

#[test]
fn test_zip_listing_structure() {
    let records = vec![rec("d/", true, 0), rec("d/f.txt", false, 8), rec("top.txt", false, 2)];
    let forest = zip().list_files(&records).unwrap();
    assert_eq!(forest.len(), 2);
    assert_eq!(forest[0].item.path, "d/");
    let kids = forest[0].children.as_ref().unwrap();
    assert_eq!(kids.len(), 1);
    assert_eq!(kids[0].item.path, "d/f.txt");
    assert_eq!(forest[1].item.path, "top.txt");
}

#[test]
fn test_sevenz_listing_chain() {
    let h = SevenZipHandler { archive_path: "a.7z".to_string(), password: String::new() };
    let forest = h.list_files(&vec![rec("x/y/z.txt", false, 6)]).unwrap();
    assert_eq!(forest.len(), 1);
    assert_eq!(forest[0].item.path, "x/");
    assert!(forest[0].item.is_dir);
    let l1 = forest[0].children.as_ref().unwrap();
    assert_eq!(l1.len(), 1);
    assert_eq!(l1[0].item.path, "x/y/");
    assert!(l1[0].item.is_dir);
    let l2 = l1[0].children.as_ref().unwrap();
    assert_eq!(l2.len(), 1);
    assert_eq!(l2[0].item.path, "x/y/z.txt");
    assert_eq!(l2[0].item.size, 6);
}

#[test]
fn test_sevenz_dedup_one_per_path() {
    let h = SevenZipHandler { archive_path: "a.7z".to_string(), password: String::new() };
    let forest = h.list_files(&vec![rec("a.txt", false, 1), rec("a.txt", false, 2)]).unwrap();
    assert_eq!(forest.len(), 1);
    assert_eq!(forest[0].item.size, 1);
}

#[test]
fn test_extract_plan_writes_under_target() {
    let records = vec![rec("d/", true, 0), rec("d/f.txt", false, 8)];
    let plan = zip().extract(&records, "out").unwrap();
    assert_eq!(plan, vec![
        ExtractAction::MkDir("out/d/".to_string()),
        ExtractAction::WriteFile("out/d/f.txt".to_string()),
    ]);
}

#[test]
fn test_extract_plan_skips_metadata() {
    let records = vec![rec("__MACOSX/j", false, 1), rec("k.txt", false, 1)];
    let plan = zip().extract(&records, "out").unwrap();
    assert_eq!(plan, vec![
        ExtractAction::Skip,
        ExtractAction::WriteFile("out/k.txt".to_string()),
    ]);
}

#[test]
fn test_extract_rejects_traversal() {
    for bad in ["../evil", "a/../../b", "/etc/passwd", "a/.."] {
        let r = zip().extract(&vec![rec(bad, false, 1)], "out");
        assert!(
            matches!(r, Err(ArchiveError::UnsupportedOrCorruptArchive(_))),
            "path {} must be rejected",
            bad
        );
    }
}

#[test]
fn test_extract_allows_dotted_names() {
    let records = vec![rec("a..b.txt", false, 1), rec("..d/x", false, 1), rec("e/.hidden", false, 1)];
    let plan = zip().extract(&records, "out").unwrap();
    assert_eq!(plan, vec![
        ExtractAction::WriteFile("out/a..b.txt".to_string()),
        ExtractAction::WriteFile("out/..d/x".to_string()),
        ExtractAction::WriteFile("out/e/.hidden".to_string()),
    ]);
}

#[test]
fn test_rar_extract_skips_directories() {
    let h = RarHandler { archive_path: "a.rar".to_string(), password: String::new() };
    let records = vec![rec("d", true, 0), rec("d/f.txt", false, 8)];
    let plan = h.extract(&records, "out").unwrap();
    assert_eq!(plan, vec![
        ExtractAction::Skip,
        ExtractAction::WriteFile("out/d/f.txt".to_string()),
    ]);
}
