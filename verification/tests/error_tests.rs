use unzip::errors::{
    classify_open_error, classify_rar_error, classify_sevenz_error, classify_zip_error,
    contains_substr, ArchiveError, OpenError, RarBackendError, ZipBackendError,
};

#[test]
fn test_zip_password_errors() {
    assert!(matches!(
        classify_zip_error(ZipBackendError::InvalidPassword),
        ArchiveError::WrongOrMissingPassword(_)
    ));
    assert!(matches!(
        classify_zip_error(ZipBackendError::PasswordRequired),
        ArchiveError::WrongOrMissingPassword(_)
    ));
}

#[test]
fn test_zip_other_errors() {
    assert!(matches!(
        classify_zip_error(ZipBackendError::FileNotFound),
        ArchiveError::FileNotFound(_)
    ));
    assert_eq!(
        classify_zip_error(ZipBackendError::InvalidArchive("broken".to_string())),
        ArchiveError::UnsupportedOrCorruptArchive("broken".to_string())
    );
    assert_eq!(
        classify_zip_error(ZipBackendError::Unsupported("odd".to_string())),
        ArchiveError::UnsupportedOrCorruptArchive("odd".to_string())
    );
    assert_eq!(
        classify_zip_error(ZipBackendError::Io("disk".to_string())),
        ArchiveError::IOFailure("disk".to_string())
    );
}

#[test]
fn test_rar_password_errors() {
    assert!(matches!(
        classify_rar_error(RarBackendError::MissingPassword),
        ArchiveError::WrongOrMissingPassword(_)
    ));
    assert!(matches!(
        classify_rar_error(RarBackendError::BadPassword),
        ArchiveError::WrongOrMissingPassword(_)
    ));
    assert_eq!(
        classify_rar_error(RarBackendError::Other("io trouble".to_string())),
        ArchiveError::IOFailure("io trouble".to_string())
    );
}

#[test]
fn test_sevenz_password_message() {
    assert_eq!(
        classify_sevenz_error("Password required to decrypt".to_string()),
        ArchiveError::WrongOrMissingPassword("Password required to decrypt".to_string())
    );
    assert_eq!(
        classify_sevenz_error("bad data".to_string()),
        ArchiveError::UnsupportedOrCorruptArchive("bad data".to_string())
    );
}

#[test]
fn test_open_error_classification() {
    assert_eq!(
        classify_open_error(OpenError::NotFound("missing.zip".to_string())),
        ArchiveError::FileNotFound("missing.zip".to_string())
    );
    assert_eq!(
        classify_open_error(OpenError::Io("interrupted".to_string())),
        ArchiveError::IOFailure("interrupted".to_string())
    );
}

#[test]
fn test_contains_substr() {
    assert!(contains_substr("Password required", "Password"));
    assert!(contains_substr("needs a Password", "Password"));
    assert!(!contains_substr("password required", "Password"));
    assert!(!contains_substr("Pass", "Password"));
    assert!(contains_substr("anything", ""));
}

#[test]
fn test_error_message() {
    let e = ArchiveError::IOFailure("broken pipe".to_string());
    assert_eq!(e.message(), "broken pipe");
    let p = ArchiveError::WrongOrMissingPassword("wrong or missing password".to_string());
    assert_eq!(p.message(), "wrong or missing password");
}
