//! The installation engine: scan, check, reap, extract.
//!
//! One call turns an opened archive, the names already present under the
//! destination root, and the caller's previously-owned folder list into an
//! [`InstallOutcome`]: the new owned-folder list, the old entries to
//! remove, and the sanitized files to write.  The caller performs the
//! filesystem work in exactly that order — remove everything in `remove`,
//! then write every file in `files` (creating parent directories) — and
//! persists `folders` as the add-on's new owned-folder set.

use vstd::prelude::*;
use crate::archive::{archive_entries, archive_len, archive_open, entry_data, entry_name, zip_parse};
use crate::conflict::{check_conflicts, first_conflict};
use crate::errors::InstallError;
use crate::ownership::{entry_top, name_is_dir, owned_folders, scan_archive};
use crate::paths::{sanitize_path, sanitized, str_seq_view};

verus! {

/// One file the extractor produced: a sanitized path (its segments, to be
/// joined under the destination root) and the bytes to store there.
pub struct FileOutput {
    pub path: Vec<String>,
    pub data: Vec<u8>,
}

impl FileOutput {
    /// The sanitized path as a sequence of segment views.
    pub open spec fn path_view(&self) -> Seq<Seq<char>> {
        str_seq_view(self.path@)
    }
}

/// Everything one successful install call decides.
pub struct InstallOutcome {
    /// The new owned-folder sequence, to be persisted by the caller.
    pub folders: Vec<String>,
    /// The previously owned entries to delete before writing, in order.
    pub remove: Vec<String>,
    /// Every file to write, with sanitized path and full contents.
    pub files: Vec<FileOutput>,
}

/// The bytes an entry yields, or nothing where the archive cannot yield
/// them.
pub open spec fn entry_bytes_or_empty(d: Option<Seq<u8>>) -> Seq<u8> {
    match d {
        Some(b) => b,
        None => Seq::<u8>::empty(),
    }
}

/// Every entry that contributes a file can have its bytes read.
pub open spec fn all_readable(entries: Seq<(Seq<char>, Option<Seq<u8>>)>) -> bool {
    forall|j: int| 0 <= j < entries.len() && entry_top((#[trigger] entries[j]).0) is Some
        ==> entries[j].1 is Some
}

/// The files an archive implies: for every non-directory entry whose
/// sanitized path is non-empty, that path and the entry's bytes, in
/// archive order.
pub open spec fn extracted_files(
    entries: Seq<(Seq<char>, Option<Seq<u8>>)>,
) -> Seq<(Seq<Seq<char>>, Seq<u8>)>
    decreases entries.len(),
{
    if entries.len() == 0 {
        Seq::<(Seq<Seq<char>>, Seq<u8>)>::empty()
    } else {
        let r = extracted_files(entries.drop_last());
        let e = entries.last();
        if entry_top(e.0) is Some {
            r.push((sanitized(e.0), entry_bytes_or_empty(e.1)))
        } else {
            r
        }
    }
}

/// The produced file list matches what the archive's entries imply.
pub open spec fn files_match(files: Seq<FileOutput>, entries: Seq<(Seq<char>, Option<Seq<u8>>)>) -> bool {
    &&& files.len() == extracted_files(entries).len()
    &&& forall|j: int| 0 <= j < files.len() ==> {
        &&& (#[trigger] files[j]).path_view() == extracted_files(entries)[j].0
        &&& files[j].data@ == extracted_files(entries)[j].1
    }
}

/// Copy a list of folder names.
fn clone_strings(v: &Vec<String>) -> (r: Vec<String>)
    ensures
        str_seq_view(r@) == str_seq_view(v@),
{
    let mut r: Vec<String> = Vec::new();
    let mut k: usize = 0;
    while k < v.len()
        invariant
            k <= v.len(),
            r@.len() == k,
            forall|j: int| 0 <= j < k ==> (#[trigger] r@[j])@ == v@[j]@,
        decreases v.len() - k,
    {
        r.push(v[k].clone());
        k = k + 1;
    }
    proof {
        assert(str_seq_view(r@) =~= str_seq_view(v@));
    }
    r
}

/// Stream every contributing entry out of the archive: skip directory
/// entries and entries whose sanitized path is empty, and pair every other
/// entry's sanitized path with its bytes, in archive order.
fn extract_files(
    a: &mut zip::ZipArchive<std::io::Cursor<Vec<u8>>>,
) -> (r: Result<Vec<FileOutput>, InstallError>)
    ensures
        archive_entries(*final(a)) == archive_entries(*old(a)),
        r is Ok <==> all_readable(archive_entries(*old(a))),
        r matches Ok(files) ==> files_match(files@, archive_entries(*old(a))),
        r matches Err(e) ==> e is ExtractionIo,
{
    let ghost entries = archive_entries(*old(a));
    let n = archive_len(a);
    let mut files: Vec<FileOutput> = Vec::new();
    let mut i: usize = 0;
    proof {
        assert(entries.take(0) =~= Seq::<(Seq<char>, Option<Seq<u8>>)>::empty());
    }
    while i < n
        invariant
            i <= n,
            n == entries.len(),
            entries == archive_entries(*a),
            entries == archive_entries(*old(a)),
            files_match(files@, entries.take(i as int)),
            forall|j: int| 0 <= j < i && entry_top((#[trigger] entries[j]).0) is Some
                ==> entries[j].1 is Some,
        decreases n - i,
    {
        let name = entry_name(a, i);
        proof {
            assert(entries.take(i + 1).drop_last() =~= entries.take(i as int));
            assert(entries.take(i + 1).last() == entries[i as int]);
        }
        if !name_is_dir(&name) {
            let p = sanitize_path(name.as_str());
            if p.len() > 0 {
                proof {
                    assert(str_seq_view(p@).len() == sanitized(name@).len());
                    assert(entry_top(entries[i as int].0) is Some);
                }
                let data = match entry_data(a, i) {
                    Ok(d) => d,
                    Err(_) => {
                        proof {
                            assert(!all_readable(entries)) by {
                                assert(entries[i as int].1 is None);
                            }
                        }
                        return Err(InstallError::ExtractionIo);
                    },
                };
                let ghost pre = files@;
                files.push(FileOutput { path: p, data });
                proof {
                    assert(files@.drop_last() =~= pre);
                    assert(files@.last().path_view() == sanitized(name@));
                }
            } else {
                proof {
                    assert(sanitized(name@).len() == 0);
                }
            }
        }
        i = i + 1;
    }
    proof {
        assert(entries.take(n as int) =~= entries);
    }
    Ok(files)
}

/// Install one add-on archive.
///
/// `existing` lists the names present directly under the destination root
/// before the call; `owned_prev` is the folder list the caller recorded
/// when this add-on was last installed (empty on first install).
///
/// The call decides the whole installation: it scans the archive for the
/// top-level folders it will create, fails with `Conflict` on the first
/// one that exists at the destination without being owned (deciding
/// nothing destructive), and otherwise returns the previously owned
/// entries to remove, the files to write, and the new owned-folder list.
/// Without a conflict the call succeeds exactly when every contributing
/// entry's bytes can be read out of the archive, and `ExtractionIo` is
/// returned otherwise.  All bytes are buffered into the outcome, so an
/// unreadable entry is discovered before the caller has touched the disk.
pub fn install_addon(
    a: &mut zip::ZipArchive<std::io::Cursor<Vec<u8>>>,
    existing: &Vec<String>,
    owned_prev: &Vec<String>,
) -> (r: Result<InstallOutcome, InstallError>)
    ensures
        archive_entries(*final(a)) == archive_entries(*old(a)),
        ({
            let discovered = owned_folders(archive_entries(*old(a)));
            match first_conflict(discovered, str_seq_view(existing@), str_seq_view(owned_prev@)) {
                Some(f) => (match r {
                    Err(InstallError::Conflict(g)) => g@ == f,
                    _ => false,
                }),
                None => {
                    &&& (r is Ok <==> all_readable(archive_entries(*old(a))))
                    &&& (r matches Err(e) ==> e is ExtractionIo)
                    &&& (r matches Ok(o) ==> {
                        &&& str_seq_view(o.folders@) == discovered
                        &&& str_seq_view(o.remove@) == str_seq_view(owned_prev@)
                        &&& files_match(o.files@, archive_entries(*old(a)))
                    })
                },
            }
        }),
{
    let folders = scan_archive(a);
    match check_conflicts(&folders, existing, owned_prev) {
        Ok(()) => {},
        Err(e) => {
            return Err(e);
        },
    }
    let remove = clone_strings(owned_prev);
    let files = match extract_files(a) {
        Ok(files) => files,
        Err(e) => {
            return Err(e);
        },
    };
    Ok(InstallOutcome { folders, remove, files })
}

/// Install one add-on archive handed over as raw bytes.
///
/// The whole call is a function of the bytes and the two lists:
/// `ArchiveOpen` exactly when the buffer does not parse as an archive,
/// and otherwise the behaviour of [`install_addon`] over the entry
/// sequence the bytes parse to — the first conflicting folder, or
/// `ExtractionIo` exactly when some contributing entry is unreadable, or
/// the fully determined outcome.
pub fn install_from_bytes(
    data: Vec<u8>,
    existing: &Vec<String>,
    owned_prev: &Vec<String>,
) -> (r: Result<InstallOutcome, InstallError>)
    ensures
        (match zip_parse(data@) {
            None => (match r {
                Err(InstallError::ArchiveOpen) => true,
                _ => false,
            }),
            Some(entries) => (match first_conflict(
                owned_folders(entries),
                str_seq_view(existing@),
                str_seq_view(owned_prev@),
            ) {
                Some(f) => (match r {
                    Err(InstallError::Conflict(g)) => g@ == f,
                    _ => false,
                }),
                None => {
                    &&& (r is Ok <==> all_readable(entries))
                    &&& (r matches Err(e) ==> e is ExtractionIo)
                    &&& (r matches Ok(o) ==> {
                        &&& str_seq_view(o.folders@) == owned_folders(entries)
                        &&& str_seq_view(o.remove@) == str_seq_view(owned_prev@)
                        &&& files_match(o.files@, entries)
                    })
                },
            }),
        }),
{
    let mut a = match archive_open(data) {
        Ok(a) => a,
        Err(_) => {
            return Err(InstallError::ArchiveOpen);
        },
    };
    proof {
        assert(zip_parse(data@) == Some(archive_entries(a)));
    }
    install_addon(&mut a, existing, owned_prev)
}

} // verus!
