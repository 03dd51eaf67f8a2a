//! A model of the destination directory, and the laws of installation.
//!
//! The destination is modelled as a map from sanitized file paths (their
//! segment sequences) to file contents.  One install call first removes
//! every path whose top-level folder is in the previously-owned list (the
//! reaper), then writes every file the archive implies (the extractor).
//! [`lemma_install_idempotent`] shows that installing the same archive a
//! second time, owning what the first install returned, reproduces the
//! same file tree, and [`lemma_reinstall_never_conflicts`] that such a
//! second call passes the conflict check.

use vstd::prelude::*;
use crate::conflict::{first_conflict, is_conflict, lemma_first_conflict_none_iff};
use crate::install::{entry_bytes_or_empty, extracted_files};
use crate::ownership::{entry_top, owned_folders};
use crate::paths::{lemma_sanitized_path_stays_within_root, normal_segment, sanitized};

verus! {

/// Destination file trees have no file at an empty path.
pub open spec fn dest_wf(dest: Map<Seq<Seq<char>>, Seq<u8>>) -> bool {
    forall|p: Seq<Seq<char>>| #[trigger] dest.dom().contains(p) ==> p.len() > 0
}

/// A top-level name is present when some file lies under it.
pub open spec fn dest_has_top(dest: Map<Seq<Seq<char>>, Seq<u8>>, f: Seq<char>) -> bool {
    exists|p: Seq<Seq<char>>| #[trigger] dest.dom().contains(p) && p.len() > 0 && p[0] == f
}

/// Remove every file under a previously-owned top-level name.
pub open spec fn reap(
    dest: Map<Seq<Seq<char>>, Seq<u8>>,
    owned: Seq<Seq<char>>,
) -> Map<Seq<Seq<char>>, Seq<u8>> {
    Map::new(
        |p: Seq<Seq<char>>| dest.dom().contains(p) && !(p.len() > 0 && owned.contains(p[0])),
        |p: Seq<Seq<char>>| dest[p],
    )
}

/// Write the extracted files in order; a later file at the same path wins.
pub open spec fn write_files(
    dest: Map<Seq<Seq<char>>, Seq<u8>>,
    files: Seq<(Seq<Seq<char>>, Seq<u8>)>,
) -> Map<Seq<Seq<char>>, Seq<u8>>
    decreases files.len(),
{
    if files.len() == 0 {
        dest
    } else {
        write_files(dest, files.drop_last()).insert(files.last().0, files.last().1)
    }
}

/// The destination after one successful install call: reap what was owned,
/// then write what the archive implies.
pub open spec fn apply_install(
    dest: Map<Seq<Seq<char>>, Seq<u8>>,
    entries: Seq<(Seq<char>, Option<Seq<u8>>)>,
    owned: Seq<Seq<char>>,
) -> Map<Seq<Seq<char>>, Seq<u8>> {
    write_files(reap(dest, owned), extracted_files(entries))
}

/// The paths the extractor writes.
pub open spec fn file_paths(files: Seq<(Seq<Seq<char>>, Seq<u8>)>) -> Seq<Seq<Seq<char>>> {
    files.map_values(|f: (Seq<Seq<char>>, Seq<u8>)| f.0)
}

/// Every discovered top-level folder already present at the destination is
/// owned by the caller: the conflict check over the destination's state.
pub open spec fn no_conflict_with(
    entries: Seq<(Seq<char>, Option<Seq<u8>>)>,
    dest: Map<Seq<Seq<char>>, Seq<u8>>,
    owned: Seq<Seq<char>>,
) -> bool {
    forall|f: Seq<char>| owned_folders(entries).contains(f) && #[trigger] dest_has_top(dest, f)
        ==> owned.contains(f)
}

proof fn lemma_owned_folders_extend(entries: Seq<(Seq<char>, Option<Seq<u8>>)>)
    requires
        entries.len() > 0,
    ensures
        forall|f: Seq<char>| #[trigger] owned_folders(entries.drop_last()).contains(f)
            ==> owned_folders(entries).contains(f),
{
    let r = owned_folders(entries.drop_last());
    match entry_top(entries.last().0) {
        Some(t) => {
            if r.contains(t) {
            } else {
                assert forall|f: Seq<char>| r.contains(f)
                    implies owned_folders(entries).contains(f) by {
                    let j = choose|j: int| 0 <= j < r.len() && r[j] == f;
                    assert(r.push(t)[j] == f);
                }
            }
        },
        None => {},
    }
}

/// Every file the extractor writes has a non-empty path whose first
/// segment is among the archive's discovered owned folders.
pub proof fn lemma_extracted_file_tops(entries: Seq<(Seq<char>, Option<Seq<u8>>)>)
    ensures
        forall|j: int| 0 <= j < extracted_files(entries).len() ==> {
            &&& (#[trigger] extracted_files(entries)[j]).0.len() > 0
            &&& owned_folders(entries).contains(extracted_files(entries)[j].0[0])
        },
    decreases entries.len(),
{
    if entries.len() == 0 {
    } else {
        lemma_extracted_file_tops(entries.drop_last());
        lemma_owned_folders_extend(entries);
        let prev = extracted_files(entries.drop_last());
        let e = entries.last();
        let r = owned_folders(entries.drop_last());
        match entry_top(e.0) {
            Some(t) => {
                let cur = prev.push((sanitized(e.0), entry_bytes_or_empty(e.1)));
                assert(t == sanitized(e.0)[0]);
                assert(owned_folders(entries).contains(t)) by {
                    if r.contains(t) {
                        let j = choose|j: int| 0 <= j < r.len() && r[j] == t;
                        assert(owned_folders(entries)[j] == t);
                    } else {
                        assert(owned_folders(entries) == r.push(t));
                        assert(owned_folders(entries)[r.len() as int] == t);
                    }
                }
                assert forall|j: int| 0 <= j < cur.len() implies {
                    &&& (#[trigger] cur[j]).0.len() > 0
                    &&& owned_folders(entries).contains(cur[j].0[0])
                } by {
                    if j < prev.len() {
                        assert(cur[j] == prev[j]);
                    } else {
                        assert(cur[j] == (sanitized(e.0), entry_bytes_or_empty(e.1)));
                    }
                }
            },
            None => {},
        }
    }
}

/// Whatever names an archive carries, every file path the extractor
/// produces is made of normal segments only, so every file is written at
/// or below the destination root.
pub proof fn lemma_extracted_paths_stay_within_root(entries: Seq<(Seq<char>, Option<Seq<u8>>)>)
    ensures
        forall|j: int, k: int| 0 <= j < extracted_files(entries).len()
            && 0 <= k < extracted_files(entries)[j].0.len()
            ==> normal_segment(#[trigger] extracted_files(entries)[j].0[k]),
    decreases entries.len(),
{
    if entries.len() == 0 {
    } else {
        lemma_extracted_paths_stay_within_root(entries.drop_last());
        let prev = extracted_files(entries.drop_last());
        let e = entries.last();
        match entry_top(e.0) {
            Some(_) => {
                lemma_sanitized_path_stays_within_root(e.0);
                let cur = prev.push((sanitized(e.0), entry_bytes_or_empty(e.1)));
                assert forall|j: int, k: int| 0 <= j < cur.len()
                        && 0 <= k < cur[j].0.len()
                    implies normal_segment(#[trigger] cur[j].0[k]) by {
                    if j < prev.len() {
                        assert(cur[j] == prev[j]);
                    } else {
                        assert(cur[j] == (sanitized(e.0), entry_bytes_or_empty(e.1)));
                    }
                }
            },
            None => {},
        }
    }
}

proof fn lemma_write_files_spec(dest: Map<Seq<Seq<char>>, Seq<u8>>, files: Seq<(Seq<Seq<char>>, Seq<u8>)>)
    ensures
        forall|p: Seq<Seq<char>>| #[trigger] write_files(dest, files).dom().contains(p)
            <==> (dest.dom().contains(p) || file_paths(files).contains(p)),
        forall|p: Seq<Seq<char>>| dest.dom().contains(p) && !file_paths(files).contains(p)
            ==> #[trigger] write_files(dest, files)[p] == dest[p],
    decreases files.len(),
{
    if files.len() == 0 {
        assert forall|p: Seq<Seq<char>>| !file_paths(files).contains(p) by {
            assert(file_paths(files).len() == 0);
        }
    } else {
        let fd = files.drop_last();
        let lastf = files.last();
        lemma_write_files_spec(dest, fd);
        assert forall|p: Seq<Seq<char>>| #[trigger] file_paths(files).contains(p)
            implies (file_paths(fd).contains(p) || lastf.0 == p) by {
            let j = choose|j: int| 0 <= j < file_paths(files).len() && file_paths(files)[j] == p;
            assert(file_paths(files)[j] == files[j].0);
            if j < files.len() - 1 {
                assert(file_paths(fd)[j] == fd[j].0);
                assert(fd[j] == files[j]);
            }
        }
        assert forall|p: Seq<Seq<char>>| (file_paths(fd).contains(p) || lastf.0 == p)
            implies #[trigger] file_paths(files).contains(p) by {
            if file_paths(fd).contains(p) {
                let j = choose|j: int| 0 <= j < file_paths(fd).len() && file_paths(fd)[j] == p;
                assert(file_paths(fd)[j] == fd[j].0);
                assert(fd[j] == files[j]);
                assert(file_paths(files)[j] == p);
            } else {
                assert(file_paths(files)[files.len() - 1] == files.last().0);
            }
        }
        assert(write_files(dest, files) == write_files(dest, fd).insert(lastf.0, lastf.1));
    }
}

/// Re-running the conflict check when the owned list covers every
/// discovered folder — as it does right after a successful install —
/// never finds a conflict, whatever exists at the destination.
pub proof fn lemma_reinstall_never_conflicts(folders: Seq<Seq<char>>, existing: Seq<Seq<char>>)
    ensures
        first_conflict(folders, existing, folders) is None,
{
    lemma_first_conflict_none_iff(folders, existing, folders);
    assert forall|j: int| 0 <= j < folders.len()
        implies !is_conflict(#[trigger] folders[j], existing, folders) by {
        assert(folders.contains(folders[j]));
    }
}

/// The conflict check over a listing of the destination's top-level names
/// decides exactly the model's conflict-freedom.
pub proof fn lemma_listing_matches_model(
    entries: Seq<(Seq<char>, Option<Seq<u8>>)>,
    dest: Map<Seq<Seq<char>>, Seq<u8>>,
    existing: Seq<Seq<char>>,
    owned: Seq<Seq<char>>,
)
    requires
        forall|f: Seq<char>| #[trigger] existing.contains(f) <==> dest_has_top(dest, f),
    ensures
        first_conflict(owned_folders(entries), existing, owned) is None
            <==> no_conflict_with(entries, dest, owned),
{
    let d = owned_folders(entries);
    lemma_first_conflict_none_iff(d, existing, owned);
    if first_conflict(d, existing, owned) is None {
        assert forall|f: Seq<char>| d.contains(f) && #[trigger] dest_has_top(dest, f)
            implies owned.contains(f) by {
            let j = choose|j: int| 0 <= j < d.len() && d[j] == f;
            assert(!is_conflict(d[j], existing, owned));
            assert(existing.contains(f));
        }
    }
    if no_conflict_with(entries, dest, owned) {
        assert forall|j: int| 0 <= j < d.len()
            implies !is_conflict(#[trigger] d[j], existing, owned) by {
            if existing.contains(d[j]) {
                assert(dest_has_top(dest, d[j]));
                assert(d.contains(d[j]));
            }
        }
    }
}

/// A successful install leaves a well-formed file tree.
pub proof fn lemma_apply_install_wf(
    dest: Map<Seq<Seq<char>>, Seq<u8>>,
    entries: Seq<(Seq<char>, Option<Seq<u8>>)>,
    owned: Seq<Seq<char>>,
)
    requires
        dest_wf(dest),
    ensures
        dest_wf(apply_install(dest, entries, owned)),
{
    let reaped = reap(dest, owned);
    let files = extracted_files(entries);
    lemma_extracted_file_tops(entries);
    lemma_write_files_spec(reaped, files);
    assert forall|p: Seq<Seq<char>>| #[trigger] apply_install(dest, entries, owned).dom().contains(p)
        implies p.len() > 0 by {
        if file_paths(files).contains(p) {
            let j = choose|j: int| 0 <= j < file_paths(files).len() && file_paths(files)[j] == p;
            assert(file_paths(files)[j] == files[j].0);
        } else {
            assert(dest.dom().contains(p));
        }
    }
}

/// Idempotence of installation.  If one install of an archive into a
/// well-formed destination passed the conflict check, then installing the
/// same archive again, with the previously-owned list equal to the
/// owned-folder sequence the first call returned, passes the check as well
/// (no folder it finds is unowned) and rebuilds exactly the same file
/// tree.  The returned owned-folder sequence is the same both times, since
/// it is a function of the archive's entries alone.
pub proof fn lemma_install_idempotent(
    dest: Map<Seq<Seq<char>>, Seq<u8>>,
    entries: Seq<(Seq<char>, Option<Seq<u8>>)>,
    owned: Seq<Seq<char>>,
)
    requires
        dest_wf(dest),
        no_conflict_with(entries, dest, owned),
    ensures
        no_conflict_with(entries, apply_install(dest, entries, owned), owned_folders(entries)),
        apply_install(apply_install(dest, entries, owned), entries, owned_folders(entries))
            == apply_install(dest, entries, owned),
{
    let d = owned_folders(entries);
    let files = extracted_files(entries);
    let reaped = reap(dest, owned);
    let dest1 = write_files(reaped, files);
    lemma_extracted_file_tops(entries);
    lemma_write_files_spec(reaped, files);

    assert forall|f: Seq<char>| d.contains(f) && #[trigger] dest_has_top(dest1, f)
        implies d.contains(f) by {}

    assert forall|p: Seq<Seq<char>>| #[trigger] dest1.dom().contains(p)
            && !(p.len() > 0 && d.contains(p[0]))
        implies (reaped.dom().contains(p) && dest1[p] == reaped[p]) by {
        if file_paths(files).contains(p) {
            let j = choose|j: int| 0 <= j < file_paths(files).len() && file_paths(files)[j] == p;
            assert(file_paths(files)[j] == files[j].0);
            assert(files[j].0.len() > 0 && d.contains(files[j].0[0]));
        }
    }

    assert forall|p: Seq<Seq<char>>| #[trigger] reaped.dom().contains(p)
        implies (dest1.dom().contains(p) && !(p.len() > 0 && d.contains(p[0]))) by {
        assert(dest.dom().contains(p));
        assert(p.len() > 0);
        if d.contains(p[0]) {
            assert(dest_has_top(dest, p[0]));
            assert(owned.contains(p[0]));
            assert(false);
        }
    }

    assert(reap(dest1, d) =~= reaped);
    assert(apply_install(dest1, entries, d) == write_files(reaped, files));
}

} // verus!
