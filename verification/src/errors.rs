//! The error taxonomy and the per-backend classifiers.
//!
//! Every backend failure is mapped onto one closed, message-carrying kind
//! set at the adapter boundary: wrong or missing password, file not found,
//! unsupported or corrupt archive, or a plain I/O failure. Nothing else
//! crosses the component boundary.

use vstd::prelude::*;

verus! {

/// The one error type that crosses the archive-layer boundary.
#[derive(Debug, Clone, PartialEq, Eq)]
pub enum ArchiveError {
    WrongOrMissingPassword(String),
    FileNotFound(String),
    UnsupportedOrCorruptArchive(String),
    IOFailure(String),
}

/// Mathematical model of an archive error.
#[verifier::ext_equal]
pub enum SpecError {
    WrongOrMissingPassword(Seq<char>),
    FileNotFound(Seq<char>),
    UnsupportedOrCorruptArchive(Seq<char>),
    IOFailure(Seq<char>),
}

impl View for ArchiveError {
    type V = SpecError;

    open spec fn view(&self) -> SpecError {
        match self {
            ArchiveError::WrongOrMissingPassword(m) => SpecError::WrongOrMissingPassword(m@),
            ArchiveError::FileNotFound(m) => SpecError::FileNotFound(m@),
            ArchiveError::UnsupportedOrCorruptArchive(m) => SpecError::UnsupportedOrCorruptArchive(
                m@,
            ),
            ArchiveError::IOFailure(m) => SpecError::IOFailure(m@),
        }
    }
}

/// The message a model error carries.
pub open spec fn spec_message(e: SpecError) -> Seq<char> {
    match e {
        SpecError::WrongOrMissingPassword(m) => m,
        SpecError::FileNotFound(m) => m,
        SpecError::UnsupportedOrCorruptArchive(m) => m,
        SpecError::IOFailure(m) => m,
    }
}

impl ArchiveError {
    /// The human-readable message this error carries.
    pub fn message(&self) -> (m: String)
        ensures
            m@ == spec_message(self@),
    {
        match self {
            ArchiveError::WrongOrMissingPassword(m) => m.clone(),
            ArchiveError::FileNotFound(m) => m.clone(),
            ArchiveError::UnsupportedOrCorruptArchive(m) => m.clone(),
            ArchiveError::IOFailure(m) => m.clone(),
        }
    }
}

/// A failure to open or read the archive file itself, as the surrounding
/// process reports it.
#[derive(Debug, Clone)]
pub enum OpenError {
    NotFound(String),
    Io(String),
}

/// Classification of file-open failures, shared by every format.
pub open spec fn spec_classify_open(e: OpenError) -> SpecError {
    match e {
        OpenError::NotFound(m) => SpecError::FileNotFound(m@),
        OpenError::Io(m) => SpecError::IOFailure(m@),
    }
}

pub fn classify_open_error(e: OpenError) -> (r: ArchiveError)
    ensures
        r@ == spec_classify_open(e),
{
    match e {
        OpenError::NotFound(m) => ArchiveError::FileNotFound(m),
        OpenError::Io(m) => ArchiveError::IOFailure(m),
    }
}

/// A zip backend failure, one variant per case the zip library reports:
/// a missing member, a wrong password, a member that requires a password,
/// a malformed or unsupported archive, or an I/O failure.
#[derive(Debug, Clone)]
pub enum ZipBackendError {
    FileNotFound,
    InvalidPassword,
    PasswordRequired,
    InvalidArchive(String),
    Unsupported(String),
    Io(String),
}

/// Classification of zip backend failures: exactly the two password cases
/// become the password kind.
pub open spec fn spec_classify_zip(e: ZipBackendError) -> SpecError {
    match e {
        ZipBackendError::FileNotFound => SpecError::FileNotFound("file not found"@),
        ZipBackendError::InvalidPassword => SpecError::WrongOrMissingPassword(
            "wrong or missing password"@,
        ),
        ZipBackendError::PasswordRequired => SpecError::WrongOrMissingPassword(
            "wrong or missing password"@,
        ),
        ZipBackendError::InvalidArchive(m) => SpecError::UnsupportedOrCorruptArchive(m@),
        ZipBackendError::Unsupported(m) => SpecError::UnsupportedOrCorruptArchive(m@),
        ZipBackendError::Io(m) => SpecError::IOFailure(m@),
    }
}

pub fn classify_zip_error(e: ZipBackendError) -> (r: ArchiveError)
    ensures
        r@ == spec_classify_zip(e),
        (r@ matches SpecError::WrongOrMissingPassword(_)) <==> (e matches
            ZipBackendError::InvalidPassword || e matches ZipBackendError::PasswordRequired),
{
    match e {
        ZipBackendError::FileNotFound => ArchiveError::FileNotFound(
            String::from_str("file not found"),
        ),
        ZipBackendError::InvalidPassword => ArchiveError::WrongOrMissingPassword(
            String::from_str("wrong or missing password"),
        ),
        ZipBackendError::PasswordRequired => ArchiveError::WrongOrMissingPassword(
            String::from_str("wrong or missing password"),
        ),
        ZipBackendError::InvalidArchive(m) => ArchiveError::UnsupportedOrCorruptArchive(m),
        ZipBackendError::Unsupported(m) => ArchiveError::UnsupportedOrCorruptArchive(m),
        ZipBackendError::Io(m) => ArchiveError::IOFailure(m),
    }
}

/// A rar backend failure: the two password result codes, or anything else
/// with its rendered message.
#[derive(Debug, Clone)]
pub enum RarBackendError {
    MissingPassword,
    BadPassword,
    Other(String),
}

/// Classification of rar backend failures: exactly the two password codes
/// become the password kind.
pub open spec fn spec_classify_rar(e: RarBackendError) -> SpecError {
    match e {
        RarBackendError::MissingPassword => SpecError::WrongOrMissingPassword(
            "wrong or missing password"@,
        ),
        RarBackendError::BadPassword => SpecError::WrongOrMissingPassword(
            "wrong or missing password"@,
        ),
        RarBackendError::Other(m) => SpecError::IOFailure(m@),
    }
}

pub fn classify_rar_error(e: RarBackendError) -> (r: ArchiveError)
    ensures
        r@ == spec_classify_rar(e),
        (r@ matches SpecError::WrongOrMissingPassword(_)) <==> (e matches
            RarBackendError::MissingPassword || e matches RarBackendError::BadPassword),
{
    match e {
        RarBackendError::MissingPassword => ArchiveError::WrongOrMissingPassword(
            String::from_str("wrong or missing password"),
        ),
        RarBackendError::BadPassword => ArchiveError::WrongOrMissingPassword(
            String::from_str("wrong or missing password"),
        ),
        RarBackendError::Other(m) => ArchiveError::IOFailure(m),
    }
}

/// `pat` occurs in `s` starting at index `i`.
pub open spec fn match_at(s: Seq<char>, pat: Seq<char>, i: int) -> bool {
    &&& 0 <= i
    &&& i + pat.len() <= s.len()
    &&& forall|j: int| 0 <= j < pat.len() ==> s[i + j] == pat[j]
}

/// `pat` occurs contiguously in `s`.
pub open spec fn contains_seq(s: Seq<char>, pat: Seq<char>) -> bool {
    exists|i: int| #[trigger] match_at(s, pat, i)
}

pub fn contains_substr(s: &str, pat: &str) -> (r: bool)
    ensures
        r == contains_seq(s@, pat@),
{
    let n = s.unicode_len();
    let m = pat.unicode_len();
    if m > n {
        proof {
            if contains_seq(s@, pat@) {
                let w = choose|w: int| match_at(s@, pat@, w);
            }
        }
        return false;
    }
    let mut i: usize = 0;
    while i <= n - m
        invariant
            0 <= i <= n - m + 1,
            m <= n,
            n == s@.len(),
            m == pat@.len(),
            forall|t: int| 0 <= t < i ==> !match_at(s@, pat@, t),
        decreases n + 1 - m - i,
    {
        let mut j: usize = 0;
        let mut hit = true;
        while j < m
            invariant
                0 <= j <= m,
                i + m <= n,
                n == s@.len(),
                m == pat@.len(),
                hit ==> forall|t: int| 0 <= t < j ==> s@[i + t] == pat@[t],
                !hit ==> !match_at(s@, pat@, i as int),
            decreases m - j,
        {
            if s.get_char(i + j) != pat.get_char(j) {
                hit = false;
                proof {
                    assert(s@[i + j] != pat@[j as int]);
                }
                j = m;
            } else {
                j += 1;
            }
        }
        if hit {
            proof {
                assert(match_at(s@, pat@, i as int));
            }
            return true;
        }
        i += 1;
    }
    proof {
        if contains_seq(s@, pat@) {
            let w = choose|w: int| match_at(s@, pat@, w);
            assert(w < i);
            assert(!match_at(s@, pat@, w));
        }
    }
    false
}

/// The marker that the 7z backend's password failures carry in their
/// rendered message.
pub open spec fn password_marker() -> Seq<char> {
    "Password"@
}

/// Classification of a 7z backend failure by its rendered message: messages
/// mentioning the password marker become the password kind, everything else
/// an unsupported-or-corrupt archive.
pub open spec fn spec_classify_sevenz(m: Seq<char>) -> SpecError {
    if contains_seq(m, password_marker()) {
        SpecError::WrongOrMissingPassword(m)
    } else {
        SpecError::UnsupportedOrCorruptArchive(m)
    }
}

pub fn classify_sevenz_error(message: String) -> (r: ArchiveError)
    ensures
        r@ == spec_classify_sevenz(message@),
        (r@ matches SpecError::WrongOrMissingPassword(_)) <==> contains_seq(
            message@,
            password_marker(),
        ),
{
    if contains_substr(message.as_str(), "Password") {
        ArchiveError::WrongOrMissingPassword(message)
    } else {
        ArchiveError::UnsupportedOrCorruptArchive(message)
    }
}

} // verus!
