//! Filename-suffix archive format detection.
//!
//! Detection is purely lexical: the file need not exist. Compound suffixes
//! are checked before single ones, ASCII-case-insensitively.

use vstd::prelude::*;
use crate::paths::{ends_ci, eq_ci, find_last, lemma_find_last, str_ends_ci, str_eq_ci};

verus! {

#[derive(Debug, Clone, Copy, PartialEq, Eq, Structural)]
pub enum ArchiveFormat {
    Zip,
    Tar,
    TarGz,
    TarBz2,
    TarXz,
    Gz,
    Bz2,
    SevenZip,
    Rar,
    Unknown,
}

/// Final path component: what follows the last separator (no separator is
/// stripped here; a path ending in `/` has an empty file name).
pub open spec fn file_name_of(p: Seq<char>) -> Seq<char> {
    p.subrange(find_last(p, '/') + 1, p.len() as int)
}

/// The extension of `name`: what follows the last dot, provided that dot is
/// neither absent nor the leading character (hidden files have no extension).
pub open spec fn extension_of(name: Seq<char>) -> Option<Seq<char>> {
    let k = find_last(name, '.');
    if k <= 0 {
        None
    } else {
        Some(name.subrange(k + 1, name.len() as int))
    }
}

/// The documented suffix table, applied to a bare file name: compound
/// suffixes first, then the single-extension lookup, anything else unknown.
pub open spec fn spec_format_of_name(name: Seq<char>) -> ArchiveFormat {
    if ends_ci(name, ".tar.gz"@) {
        ArchiveFormat::TarGz
    } else if ends_ci(name, ".tar.bz2"@) {
        ArchiveFormat::TarBz2
    } else if ends_ci(name, ".tar.xz"@) {
        ArchiveFormat::TarXz
    } else if ends_ci(name, ".tgz"@) {
        ArchiveFormat::TarGz
    } else if ends_ci(name, ".tbz2"@) || ends_ci(name, ".tbz"@) {
        ArchiveFormat::TarBz2
    } else {
        match extension_of(name) {
            None => ArchiveFormat::Unknown,
            Some(ext) => {
                if eq_ci(ext, "zip"@) {
                    ArchiveFormat::Zip
                } else if eq_ci(ext, "tar"@) {
                    ArchiveFormat::Tar
                } else if eq_ci(ext, "gz"@) {
                    ArchiveFormat::Gz
                } else if eq_ci(ext, "bz2"@) {
                    ArchiveFormat::Bz2
                } else if eq_ci(ext, "7z"@) {
                    ArchiveFormat::SevenZip
                } else if eq_ci(ext, "rar"@) {
                    ArchiveFormat::Rar
                } else {
                    ArchiveFormat::Unknown
                }
            },
        }
    }
}

/// Format detected from a full path: the suffix table applied to the final
/// path component.
pub open spec fn spec_format_of(path: Seq<char>) -> ArchiveFormat {
    spec_format_of_name(file_name_of(path))
}

/// Extracts the final path component.
fn file_name_str(path: &str) -> (r: String)
    ensures
        r@ == file_name_of(path@),
{
    let n = path.unicode_len();
    let mut i = n;
    while i > 0
        invariant
            0 <= i <= n,
            n == path@.len(),
            forall|t: int| i <= t < n ==> path@[t] != '/',
        decreases i,
    {
        let j = i - 1;
        if path.get_char(j) == '/' {
            proof {
                lemma_find_last(path@, '/');
                let k = find_last(path@, '/');
                assert(path@[j as int] == '/');
                if k < j {
                    assert(path@[j as int] != '/');
                }
                assert(k == j);
            }
            let r = String::from_str(path.substring_char(i, n));
            proof {
                assert(r@ =~= file_name_of(path@));
            }
            return r;
        }
        i = j;
    }
    proof {
        lemma_find_last(path@, '/');
        let k = find_last(path@, '/');
        if k >= 0 {
            assert(path@[k] == '/');
            assert(path@[k] != '/');
        }
    }
    let r = String::from_str(path.substring_char(0, n));
    proof {
        assert(r@ =~= file_name_of(path@));
    }
    r
}

/// Extension of a bare file name, by the lexical rule of `extension_of`.
fn extension_str(name: &str) -> (r: Option<String>)
    ensures
        match r {
            Some(e) => extension_of(name@) matches Some(es) && e@ == es,
            None => extension_of(name@) is None,
        },
{
    let n = name.unicode_len();
    let mut i = n;
    while i > 0
        invariant
            0 <= i <= n,
            n == name@.len(),
            forall|t: int| i <= t < n ==> name@[t] != '.',
        decreases i,
    {
        let j = i - 1;
        if name.get_char(j) == '.' {
            proof {
                lemma_find_last(name@, '.');
                let k = find_last(name@, '.');
                assert(name@[j as int] == '.');
                if k < j {
                    assert(name@[j as int] != '.');
                }
                assert(k == j);
            }
            if j == 0 {
                return None;
            }
            let e = String::from_str(name.substring_char(i, n));
            proof {
                assert(e@ =~= extension_of(name@)->Some_0);
            }
            return Some(e);
        }
        i = j;
    }
    proof {
        lemma_find_last(name@, '.');
        let k = find_last(name@, '.');
        if k >= 0 {
            assert(name@[k] == '.');
            assert(name@[k] != '.');
        }
    }
    None
}

impl ArchiveFormat {
    /// Classifies an archive by the suffix of its file name, checking
    /// compound suffixes before single ones, case-insensitively.
    pub fn from_path(path: &str) -> (r: ArchiveFormat)
        ensures
            r == spec_format_of(path@),
    {
        let name = file_name_str(path);
        let name = name.as_str();
        if str_ends_ci(name, ".tar.gz") {
            ArchiveFormat::TarGz
        } else if str_ends_ci(name, ".tar.bz2") {
            ArchiveFormat::TarBz2
        } else if str_ends_ci(name, ".tar.xz") {
            ArchiveFormat::TarXz
        } else if str_ends_ci(name, ".tgz") {
            ArchiveFormat::TarGz
        } else if str_ends_ci(name, ".tbz2") || str_ends_ci(name, ".tbz") {
            ArchiveFormat::TarBz2
        } else {
            match extension_str(name) {
                None => ArchiveFormat::Unknown,
                Some(ext) => {
                    let ext = ext.as_str();
                    if str_eq_ci(ext, "zip") {
                        ArchiveFormat::Zip
                    } else if str_eq_ci(ext, "tar") {
                        ArchiveFormat::Tar
                    } else if str_eq_ci(ext, "gz") {
                        ArchiveFormat::Gz
                    } else if str_eq_ci(ext, "bz2") {
                        ArchiveFormat::Bz2
                    } else if str_eq_ci(ext, "7z") {
                        ArchiveFormat::SevenZip
                    } else if str_eq_ci(ext, "rar") {
                        ArchiveFormat::Rar
                    } else {
                        ArchiveFormat::Unknown
                    }
                },
            }
        }
    }
}

} // verus!
