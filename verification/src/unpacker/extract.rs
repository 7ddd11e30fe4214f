//! Which downloaded files the unpacker opens, and how.

use vstd::prelude::*;

use crate::error::UnpackError;
use crate::unpacker::bundle::read::string_is;
use crate::unpacker::bundle::extraction::{file_name_of, path_file_name};

verus! {

/// What the unpacker does with a downloaded file.
#[derive(Debug, Clone, Copy, PartialEq, Eq, Structural)]
pub enum ArchiveAction {
    /// A zip archive whose entries are extracted under their own names.
    Extract,
    /// A zip archive whose entries are all extracted under the archive's
    /// own file name.
    ExtractIndex,
    /// A file of no known kind, skipped and logged.
    Skip,
}

/// What `Path::extension` gives for `path`, as text.
pub uninterp spec fn path_extension(path: Seq<char>) -> Option<Seq<char>>;

/// `std::path::Path::extension` on a path given as text. The contract
/// names the result; an extension taken from text is text again.
#[verifier::external_body]
fn extension_of(path: &str) -> (r: Option<String>)
    ensures
        match path_extension(path@) {
            Some(ext) => r is Some && r->Some_0@ == ext,
            None => r is None,
        },
{
    match std::path::Path::new(path).extension() {
        Some(ext) => Some(ext.to_string_lossy().into_owned()),
        None => None,
    }
}

/// The action for a file: archives named `.ab`, `.bin` or `.usm` are
/// extracted, `.idx` archives are extracted under their own name, all other
/// files are skipped.
pub open spec fn spec_archive_action(path: Seq<char>) -> ArchiveAction {
    match path_extension(path) {
        Some(ext) => if ext == "ab"@ || ext == "bin"@ || ext == "usm"@ {
            ArchiveAction::Extract
        } else if ext == "idx"@ {
            ArchiveAction::ExtractIndex
        } else {
            ArchiveAction::Skip
        },
        None => ArchiveAction::Skip,
    }
}

pub fn archive_action(path: &str) -> (a: ArchiveAction)
    ensures
        a == spec_archive_action(path@),
{
    match extension_of(path) {
        Some(ext) => if string_is(&ext, "ab") || string_is(&ext, "bin") || string_is(&ext, "usm") {
            ArchiveAction::Extract
        } else if string_is(&ext, "idx") {
            ArchiveAction::ExtractIndex
        } else {
            ArchiveAction::Skip
        },
        None => ArchiveAction::Skip,
    }
}

/// The actions for all files found, in their order.
pub fn all(paths: &Vec<String>) -> (r: Vec<ArchiveAction>)
    ensures
        r@.len() == paths@.len(),
        forall|i: int| 0 <= i < paths@.len() ==> #[trigger] r@[i] == spec_archive_action(paths@[i]@),
{
    let mut out: Vec<ArchiveAction> = Vec::new();
    let mut k: usize = 0;
    while k < paths.len()
        invariant
            k <= paths@.len(),
            out@.len() == k,
            forall|i: int| 0 <= i < k ==> #[trigger] out@[i] == spec_archive_action(paths@[i]@),
        decreases paths@.len() - k,
    {
        out.push(archive_action(paths[k].as_str()));
        k = k + 1;
    }
    out
}

/// Whether an extracted file is a bundle that the unpacker parses: one
/// named `.ab` or `.bin`.
pub open spec fn spec_is_bundle_file(path: Seq<char>) -> bool {
    match path_extension(path) {
        Some(ext) => ext == "ab"@ || ext == "bin"@,
        None => false,
    }
}

pub fn is_bundle_file(path: &str) -> (b: bool)
    ensures
        b == spec_is_bundle_file(path@),
{
    match extension_of(path) {
        Some(ext) => string_is(&ext, "ab") || string_is(&ext, "bin"),
        None => false,
    }
}


/// The number of entries of the zip archive `archive`, or `None` where the
/// `zip` crate cannot open it.
pub uninterp spec fn zip_entry_count(archive: Seq<u8>) -> Option<nat>;

/// The name of entry `i` of the zip archive `archive`, or `None` where the
/// `zip` crate cannot open the archive or that entry.
pub uninterp spec fn zip_entry_name(archive: Seq<u8>, i: nat) -> Option<Seq<char>>;

/// The contents of entry `i` of the zip archive `archive`, or `None` where
/// the `zip` crate cannot open the archive or the entry, or read it.
pub uninterp spec fn zip_entry_data(archive: Seq<u8>, i: nat) -> Option<Seq<u8>>;

/// Whether an entry name names a directory: it ends in `/` or `\`.
pub open spec fn names_directory(name: Seq<char>) -> bool {
    name.len() > 0 && (name.last() == '/' || name.last() == '\\')
}

/// `zip::ZipArchive::new` over the bytes, then `len`. The contract names
/// the result.
#[verifier::external_body]
fn zip_len(archive: &[u8]) -> (r: Option<usize>)
    ensures
        match zip_entry_count(archive@) {
            Some(n) => r == Some(n as usize) && n <= usize::MAX,
            None => r is None,
        },
{
    match zip::ZipArchive::new(std::io::Cursor::new(archive)) {
        Ok(z) => Some(z.len()),
        Err(_) => None,
    }
}

/// `zip::ZipArchive::new` over the bytes, `by_index(i)`, then the entry's
/// `name` and `is_dir`. The contract names the name and states `is_dir` as
/// the `zip` source defines it: the name ends in `/` or `\`.
#[verifier::external_body]
fn zip_entry(archive: &[u8], i: usize) -> (r: Option<(String, bool)>)
    ensures
        match zip_entry_name(archive@, i as nat) {
            Some(n) => r matches Some(e) && e.0@ == n && e.1 == names_directory(n),
            None => r is None,
        },
{
    match zip::ZipArchive::new(std::io::Cursor::new(archive)) {
        Ok(mut z) => match z.by_index(i) {
            Ok(e) => Some((e.name().to_string(), e.is_dir())),
            Err(_) => None,
        },
        Err(_) => None,
    }
}

/// `zip::ZipArchive::new` over the bytes, `by_index(i)`, then reading the
/// entry to its end. The contract names the contents.
#[verifier::external_body]
fn zip_entry_contents(archive: &[u8], i: usize) -> (r: Option<Vec<u8>>)
    ensures
        match zip_entry_data(archive@, i as nat) {
            Some(d) => r matches Some(v) && v@ == d,
            None => r is None,
        },
{
    let mut z = match zip::ZipArchive::new(std::io::Cursor::new(archive)) {
        Ok(z) => z,
        Err(_) => return None,
    };
    let mut e = match z.by_index(i) {
        Ok(e) => e,
        Err(_) => return None,
    };
    let mut buf = Vec::new();
    match std::io::Read::read_to_end(&mut e, &mut buf) {
        Ok(_) => Some(buf),
        Err(_) => None,
    }
}

/// The files that the first `k` entries of an archive yield, in entry
/// order, and the error that stopped them, if one did. Directories are
/// skipped; every other entry is written under its own name, or under the
/// archive's file name for an index archive.
pub open spec fn spec_entry_outputs(path: Seq<char>, archive: Seq<u8>, idx: bool, k: nat)
    -> (Seq<(Seq<char>, Seq<u8>)>, Option<UnpackError>)
    decreases k,
{
    if k == 0 {
        (Seq::empty(), None)
    } else {
        let prev = spec_entry_outputs(path, archive, idx, (k - 1) as nat);
        if prev.1 is Some {
            prev
        } else {
            match zip_entry_name(archive, (k - 1) as nat) {
                None => (prev.0, Some(UnpackError::ZipEntry)),
                Some(name) => if names_directory(name) {
                    prev
                } else if idx && path_file_name(path) is None {
                    (prev.0, Some(UnpackError::NoFileName))
                } else {
                    match zip_entry_data(archive, (k - 1) as nat) {
                        None => (prev.0, Some(UnpackError::ZipEntry)),
                        Some(data) => {
                            let out = if idx { path_file_name(path)->Some_0 } else { name };
                            (prev.0.push((out, data)), None)
                        },
                    }
                },
            }
        }
    }
}

/// What extracting the zip archive `archive`, read from `path`, yields.
pub open spec fn spec_archive_outputs(path: Seq<char>, archive: Seq<u8>, idx: bool)
    -> (Seq<(Seq<char>, Seq<u8>)>, Option<UnpackError>)
{
    match zip_entry_count(archive) {
        None => (Seq::empty(), Some(UnpackError::ZipArchive)),
        Some(n) => spec_entry_outputs(path, archive, idx, n),
    }
}

/// The files that an archive yields, in entry order, up to the first
/// failure, and that failure.
#[derive(Debug)]
pub struct ArchiveOutputs {
    pub files: Vec<(String, Vec<u8>)>,
    pub error: Option<UnpackError>,
}

/// Extracts the zip archive `archive` read from `path`: every entry that is
/// not a directory, under its own name, or under the file name of `path`
/// where `idx` is set; it stops at the first entry that fails.
pub fn archive_outputs(path: &str, archive: &[u8], idx: bool) -> (r: ArchiveOutputs)
    ensures
        ({
            let s = spec_archive_outputs(path@, archive@, idx);
            r.files@.map_values(|f: (String, Vec<u8>)| (f.0@, f.1@)) == s.0 && r.error == s.1
        }),
{
    let mut files: Vec<(String, Vec<u8>)> = Vec::new();
    proof {
        assert(files@.map_values(|f: (String, Vec<u8>)| (f.0@, f.1@)) =~= Seq::<(Seq<char>, Seq<u8>)>::empty());
    }
    let n = match zip_len(archive) {
        Some(n) => n,
        None => return ArchiveOutputs { files, error: Some(UnpackError::ZipArchive) },
    };
    let mut k: usize = 0;
    while k < n
        invariant
            k <= n,
            zip_entry_count(archive@) == Some(n as nat),
            spec_entry_outputs(path@, archive@, idx, k as nat)
                == (files@.map_values(|f: (String, Vec<u8>)| (f.0@, f.1@)), None::<UnpackError>),
        decreases n - k,
    {
        let ghost before = files@;
        let (name, is_dir) = match zip_entry(archive, k) {
            Some(e) => e,
            None => {
                proof {
                    lemma_entry_outputs_stop(path@, archive@, idx, (k + 1) as nat, n as nat);
                }
                return ArchiveOutputs { files, error: Some(UnpackError::ZipEntry) };
            },
        };
        if !is_dir {
            let out = if idx {
                match file_name_of(path) {
                    Some(f) => f,
                    None => {
                        proof {
                            lemma_entry_outputs_stop(path@, archive@, idx, (k + 1) as nat, n as nat);
                        }
                        return ArchiveOutputs { files, error: Some(UnpackError::NoFileName) };
                    },
                }
            } else {
                name
            };
            let data = match zip_entry_contents(archive, k) {
                Some(d) => d,
                None => {
                    proof {
                        lemma_entry_outputs_stop(path@, archive@, idx, (k + 1) as nat, n as nat);
                    }
                    return ArchiveOutputs { files, error: Some(UnpackError::ZipEntry) };
                },
            };
            files.push((out, data));
            proof {
                assert(files@.map_values(|f: (String, Vec<u8>)| (f.0@, f.1@))
                    =~= before.map_values(|f: (String, Vec<u8>)| (f.0@, f.1@)).push((files@.last().0@, files@.last().1@)));
            }
        }
        k = k + 1;
    }
    ArchiveOutputs { files, error: None }
}

proof fn lemma_entry_outputs_stop(path: Seq<char>, archive: Seq<u8>, idx: bool, i: nat, n: nat)
    requires
        i <= n,
        spec_entry_outputs(path, archive, idx, i).1 is Some,
    ensures
        spec_entry_outputs(path, archive, idx, n) == spec_entry_outputs(path, archive, idx, i),
    decreases n - i,
{
    if i < n {
        lemma_entry_outputs_stop(path, archive, idx, i, (n - 1) as nat);
    }
}

} // verus!
