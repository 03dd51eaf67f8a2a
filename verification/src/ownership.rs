//! Discovering which top-level folders an archive owns.
//!
//! The scanner walks every entry once, skips directory entries, sanitizes
//! the name, and collects the first segment of every non-empty sanitized
//! path, de-duplicated in first-seen order.  The resulting sequence is the
//! canonical owned-folder list of the add-on the archive carries.

use vstd::prelude::*;
use crate::paths::{sanitize_path, sanitized, str_seq_view};
use crate::archive::{archive_entries, archive_len, entry_name};

verus! {

/// A directory entry: its name ends with the separator.
pub open spec fn is_dir_name(name: Seq<char>) -> bool {
    name.len() > 0 && name.last() == '/'
}

/// The top-level folder an entry contributes: the first segment of its
/// sanitized path, or nothing for directory entries and entries whose
/// sanitized path is empty.
pub open spec fn entry_top(name: Seq<char>) -> Option<Seq<char>> {
    if is_dir_name(name) {
        None
    } else if sanitized(name).len() == 0 {
        None
    } else {
        Some(sanitized(name)[0])
    }
}

/// The owned-folder sequence of an archive: the top-level folder names of
/// all contributing entries, first-seen order, without duplicates.
pub open spec fn owned_folders(entries: Seq<(Seq<char>, Option<Seq<u8>>)>) -> Seq<Seq<char>>
    decreases entries.len(),
{
    if entries.len() == 0 {
        Seq::<Seq<char>>::empty()
    } else {
        let r = owned_folders(entries.drop_last());
        match entry_top(entries.last().0) {
            Some(t) => if r.contains(t) {
                r
            } else {
                r.push(t)
            },
            None => r,
        }
    }
}

/// An owned-folder sequence never repeats a name: it is an ordered set.
pub proof fn lemma_owned_folders_unique(entries: Seq<(Seq<char>, Option<Seq<u8>>)>)
    ensures
        forall|i: int, j: int| 0 <= i < j < owned_folders(entries).len()
            ==> #[trigger] owned_folders(entries)[i] != #[trigger] owned_folders(entries)[j],
    decreases entries.len(),
{
    if entries.len() == 0 {
    } else {
        lemma_owned_folders_unique(entries.drop_last());
        let r = owned_folders(entries.drop_last());
        match entry_top(entries.last().0) {
            Some(t) => {
                if r.contains(t) {
                } else {
                    let cur = r.push(t);
                    assert forall|i: int, j: int| 0 <= i < j < cur.len()
                        implies #[trigger] cur[i] != #[trigger] cur[j] by {
                        if j < r.len() {
                            assert(cur[i] == r[i] && cur[j] == r[j]);
                        } else {
                            assert(cur[j] == t);
                            assert(cur[i] == r[i]);
                            if r[i] == t {
                                assert(r.contains(t));
                            }
                        }
                    }
                }
            },
            None => {},
        }
    }
}

/// The owned-folder sequence is a function of the archive's entries alone:
/// two scans of the same archive yield the same sequence, so the sequence
/// an install returns equals what a fresh scan of the same archive finds.
pub proof fn lemma_scan_round_trip(
    entries: Seq<(Seq<char>, Option<Seq<u8>>)>,
    r1: Seq<Seq<char>>,
    r2: Seq<Seq<char>>,
)
    requires
        r1 == owned_folders(entries),
        r2 == owned_folders(entries),
    ensures
        r1 == r2,
{
}

/// Whether a list of owned strings contains one with the given view.
pub fn contains_string(v: &Vec<String>, x: &String) -> (b: bool)
    ensures
        b == str_seq_view(v@).contains(x@),
{
    let mut k: usize = 0;
    while k < v.len()
        invariant
            k <= v.len(),
            forall|j: int| 0 <= j < k ==> str_seq_view(v@)[j] != x@,
        decreases v.len() - k,
    {
        if x.eq(&v[k]) {
            proof {
                assert(str_seq_view(v@)[k as int] == x@);
            }
            return true;
        }
        k = k + 1;
    }
    proof {
        assert(!str_seq_view(v@).contains(x@)) by {
            if str_seq_view(v@).contains(x@) {
                let j = choose|j: int| 0 <= j < str_seq_view(v@).len()
                    && str_seq_view(v@)[j] == x@;
                assert(str_seq_view(v@)[j] != x@);
            }
        }
    }
    false
}

pub(crate) fn name_is_dir(name: &String) -> (b: bool)
    ensures
        b == is_dir_name(name@),
{
    let n = name.as_str().unicode_len();
    if n == 0 {
        false
    } else {
        name.as_str().get_char(n - 1) == '/'
    }
}

/// Scan every entry of the archive and return the ordered, de-duplicated
/// sequence of top-level folder names among all sanitized, non-empty,
/// non-directory entries.  The pass reads names only: no entry bytes are
/// touched and nothing outside the archive handle is observed.
pub fn scan_archive(a: &zip::ZipArchive<std::io::Cursor<Vec<u8>>>) -> (folders: Vec<String>)
    ensures
        str_seq_view(folders@) == owned_folders(archive_entries(*a)),
{
    let ghost entries = archive_entries(*a);
    let n = archive_len(a);
    let mut folders: Vec<String> = Vec::new();
    let mut i: usize = 0;
    proof {
        assert(entries.take(0) =~= Seq::<(Seq<char>, Option<Seq<u8>>)>::empty());
        assert(str_seq_view(folders@) =~= Seq::<Seq<char>>::empty());
    }
    while i < n
        invariant
            i <= n,
            n == entries.len(),
            entries == archive_entries(*a),
            str_seq_view(folders@) == owned_folders(entries.take(i as int)),
        decreases n - i,
    {
        let name = entry_name(a, i);
        proof {
            assert(entries.take(i + 1).drop_last() =~= entries.take(i as int));
            assert(entries.take(i + 1).last() == entries[i as int]);
        }
        if !name_is_dir(&name) {
            let p = sanitize_path(name.as_str());
            if p.len() > 0 {
                proof {
                    assert(str_seq_view(p@).len() == sanitized(name@).len());
                    assert(str_seq_view(p@)[0] == sanitized(name@)[0]);
                }
                let f = &p[0];
                if !contains_string(&folders, f) {
                    let ghost pre = folders@;
                    let owned_name = f.clone();
                    folders.push(owned_name);
                    proof {
                        assert(str_seq_view(folders@) =~= str_seq_view(pre).push(f@));
                    }
                }
            } else {
                proof {
                    assert(sanitized(name@).len() == 0);
                }
            }
        }
        i = i + 1;
    }
    proof {
        assert(entries.take(n as int) =~= entries);
    }
    folders
}

} // verus!
