//! Deciding whether installation may proceed.
//!
//! A discovered top-level folder conflicts when an entry of that name is
//! already present under the destination root and the caller does not own
//! it.  The whole discovered list is checked before anything destructive
//! happens, and the first conflicting name is reported.

use vstd::prelude::*;
use crate::errors::InstallError;
use crate::ownership::contains_string;
use crate::paths::str_seq_view;

verus! {

/// A folder name that is present at the destination but not owned by the
/// caller.
pub open spec fn is_conflict(f: Seq<char>, existing: Seq<Seq<char>>, owned: Seq<Seq<char>>) -> bool {
    existing.contains(f) && !owned.contains(f)
}

/// The first discovered folder name that conflicts, if any.
pub open spec fn first_conflict(
    folders: Seq<Seq<char>>,
    existing: Seq<Seq<char>>,
    owned: Seq<Seq<char>>,
) -> Option<Seq<char>>
    decreases folders.len(),
{
    if folders.len() == 0 {
        None
    } else if is_conflict(folders[0], existing, owned) {
        Some(folders[0])
    } else {
        first_conflict(folders.drop_first(), existing, owned)
    }
}

/// There is no conflict exactly when no discovered folder conflicts.
pub proof fn lemma_first_conflict_none_iff(
    folders: Seq<Seq<char>>,
    existing: Seq<Seq<char>>,
    owned: Seq<Seq<char>>,
)
    ensures
        first_conflict(folders, existing, owned) is None
            <==> forall|j: int| 0 <= j < folders.len()
                ==> !is_conflict(#[trigger] folders[j], existing, owned),
    decreases folders.len(),
{
    if folders.len() == 0 {
    } else if is_conflict(folders[0], existing, owned) {
    } else {
        lemma_first_conflict_none_iff(folders.drop_first(), existing, owned);
        assert forall|j: int| 1 <= j < folders.len()
            implies folders.drop_first()[j - 1] == folders[j] by {}
    }
}

proof fn lemma_first_conflict_at(
    folders: Seq<Seq<char>>,
    existing: Seq<Seq<char>>,
    owned: Seq<Seq<char>>,
    k: int,
)
    requires
        0 <= k < folders.len(),
        is_conflict(folders[k], existing, owned),
        forall|j: int| 0 <= j < k ==> !is_conflict(#[trigger] folders[j], existing, owned),
    ensures
        first_conflict(folders, existing, owned) == Some(folders[k]),
    decreases k,
{
    if k == 0 {
    } else {
        assert(!is_conflict(folders[0], existing, owned));
        assert forall|j: int| 0 <= j < k - 1
            implies !is_conflict(#[trigger] folders.drop_first()[j], existing, owned) by {
            assert(folders.drop_first()[j] == folders[j + 1]);
        }
        assert(folders.drop_first()[k - 1] == folders[k]);
        lemma_first_conflict_at(folders.drop_first(), existing, owned, k - 1);
    }
}

/// Check every discovered folder against what already exists at the
/// destination and what the caller owned before.  Succeeds exactly when no
/// discovered folder conflicts; otherwise reports the first conflicting
/// folder name, before anything destructive has been decided.
pub fn check_conflicts(
    folders: &Vec<String>,
    existing: &Vec<String>,
    owned: &Vec<String>,
) -> (r: Result<(), InstallError>)
    ensures
        r is Ok <==> first_conflict(
            str_seq_view(folders@),
            str_seq_view(existing@),
            str_seq_view(owned@),
        ) is None,
        r matches Err(e) ==> e matches InstallError::Conflict(f)
            && Some(f@) == first_conflict(
                str_seq_view(folders@),
                str_seq_view(existing@),
                str_seq_view(owned@),
            ),
{
    let ghost fv = str_seq_view(folders@);
    let ghost ev = str_seq_view(existing@);
    let ghost ov = str_seq_view(owned@);
    let mut k: usize = 0;
    while k < folders.len()
        invariant
            k <= folders.len(),
            fv == str_seq_view(folders@),
            ev == str_seq_view(existing@),
            ov == str_seq_view(owned@),
            forall|j: int| 0 <= j < k ==> !is_conflict(#[trigger] fv[j], ev, ov),
        decreases folders.len() - k,
    {
        let f = &folders[k];
        proof {
            assert(fv[k as int] == f@);
        }
        if contains_string(existing, f) && !contains_string(owned, f) {
            proof {
                lemma_first_conflict_at(fv, ev, ov, k as int);
            }
            return Err(InstallError::Conflict(f.clone()));
        }
        k = k + 1;
    }
    proof {
        lemma_first_conflict_none_iff(fv, ev, ov);
    }
    Ok(())
}

} // verus!
