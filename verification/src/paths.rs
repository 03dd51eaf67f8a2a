//! Sanitizing archive entry names into safe relative paths.
//!
//! An entry name is a separator-delimited string chosen by whoever built
//! the archive, so it may try to climb out of the destination directory
//! with `..` segments, absolute markers or drive prefixes.  Sanitization
//! splits on both separator styles and keeps only normal segments: a `..`
//! pops the segment collected before it (and does nothing at the top),
//! while empty segments, `.`, and drive-style segments holding `:` are
//! dropped.

use vstd::prelude::*;

verus! {

/// Both separator styles an archive entry name may use.
pub open spec fn is_separator(c: char) -> bool {
    c == '/' || c == '\\'
}

/// The raw separator-delimited components of an entry name, including
/// empty components produced by leading, trailing or doubled separators.
/// There is always at least one component.
pub open spec fn split_path(s: Seq<char>) -> Seq<Seq<char>>
    decreases s.len(),
{
    if s.len() == 0 {
        seq![Seq::<char>::empty()]
    } else if is_separator(s.last()) {
        split_path(s.drop_last()).push(Seq::<char>::empty())
    } else {
        let r = split_path(s.drop_last());
        r.drop_last().push(r.last().push(s.last()))
    }
}

pub proof fn lemma_split_path_len(s: Seq<char>)
    ensures
        split_path(s).len() >= 1,
    decreases s.len(),
{
    if s.len() == 0 {
    } else {
        lemma_split_path_len(s.drop_last());
    }
}

/// How one raw component changes the sanitized path collected so far.
/// A component holding `:` is a drive or prefix marker and is dropped.
pub open spec fn apply_segment(acc: Seq<Seq<char>>, seg: Seq<char>) -> Seq<Seq<char>> {
    if seg.len() == 0 || seg == seq!['.'] || seg.contains(':') {
        acc
    } else if seg == seq!['.', '.'] {
        if acc.len() == 0 {
            acc
        } else {
            acc.drop_last()
        }
    } else {
        acc.push(seg)
    }
}

/// The sanitized path obtained by folding `apply_segment` over raw components.
pub open spec fn sanitize_segments(segs: Seq<Seq<char>>) -> Seq<Seq<char>>
    decreases segs.len(),
{
    if segs.len() == 0 {
        Seq::<Seq<char>>::empty()
    } else {
        apply_segment(sanitize_segments(segs.drop_last()), segs.last())
    }
}

/// The sanitized path of an archive entry name: its sequence of segments.
pub open spec fn sanitized(name: Seq<char>) -> Seq<Seq<char>> {
    sanitize_segments(split_path(name))
}

/// A segment that cannot move the joined path out of the directory it is
/// joined under: non-empty, no separator of either style, no drive
/// marker, and not a traversal marker.
pub open spec fn normal_segment(seg: Seq<char>) -> bool {
    &&& seg.len() > 0
    &&& seg != seq!['.']
    &&& seg != seq!['.', '.']
    &&& !seg.contains('/')
    &&& !seg.contains('\\')
    &&& !seg.contains(':')
}

/// Free of separator characters of either style.
pub open spec fn sep_free(seg: Seq<char>) -> bool {
    forall|k: int| 0 <= k < seg.len() ==> !is_separator(#[trigger] seg[k])
}

proof fn lemma_split_path_sep_free(s: Seq<char>)
    ensures
        forall|j: int| 0 <= j < split_path(s).len() ==> sep_free(#[trigger] split_path(s)[j]),
    decreases s.len(),
{
    if s.len() == 0 {
        assert forall|j: int| 0 <= j < split_path(s).len()
            implies sep_free(#[trigger] split_path(s)[j]) by {
            assert(split_path(s)[j] == Seq::<char>::empty());
        }
    } else if is_separator(s.last()) {
        lemma_split_path_sep_free(s.drop_last());
        let r = split_path(s.drop_last());
        assert forall|j: int| 0 <= j < split_path(s).len()
            implies sep_free(#[trigger] split_path(s)[j]) by {
            if j < r.len() {
                assert(split_path(s)[j] == r[j]);
            } else {
                assert(split_path(s)[j] == Seq::<char>::empty());
            }
        }
    } else {
        lemma_split_path_sep_free(s.drop_last());
        lemma_split_path_len(s.drop_last());
        let r = split_path(s.drop_last());
        let ext = r.last().push(s.last());
        assert(sep_free(r.last())) by {
            assert(r[r.len() - 1] == r.last());
        }
        assert(sep_free(ext)) by {
            assert forall|k: int| 0 <= k < ext.len() implies !is_separator(ext[k]) by {
                if k < r.last().len() {
                    assert(ext[k] == r.last()[k]);
                } else {
                    assert(ext[k] == s.last());
                }
            }
        }
        assert forall|j: int| 0 <= j < split_path(s).len()
            implies sep_free(#[trigger] split_path(s)[j]) by {
            if j < r.len() - 1 {
                assert(split_path(s)[j] == r.drop_last()[j]);
                assert(r.drop_last()[j] == r[j]);
            } else {
                assert(split_path(s)[j] == ext);
            }
        }
    }
}

proof fn lemma_sanitize_segments_normal(segs: Seq<Seq<char>>)
    requires
        forall|j: int| 0 <= j < segs.len() ==> sep_free(#[trigger] segs[j]),
    ensures
        forall|j: int| 0 <= j < sanitize_segments(segs).len()
            ==> normal_segment(#[trigger] sanitize_segments(segs)[j]),
    decreases segs.len(),
{
    if segs.len() == 0 {
    } else {
        lemma_sanitize_segments_normal(segs.drop_last());
        let prev = sanitize_segments(segs.drop_last());
        let seg = segs.last();
        if seg.len() == 0 || seg == seq!['.'] || seg.contains(':') {
        } else if seg == seq!['.', '.'] {
        } else {
            assert(!seg.contains('/')) by {
                if seg.contains('/') {
                    let k = choose|k: int| 0 <= k < seg.len() && seg[k] == '/';
                    assert(is_separator(seg[k]));
                }
            }
            assert(!seg.contains('\\')) by {
                if seg.contains('\\') {
                    let k = choose|k: int| 0 <= k < seg.len() && seg[k] == '\\';
                    assert(is_separator(seg[k]));
                }
            }
            assert(normal_segment(seg));
        }
    }
}

/// Every segment of a sanitized path is a normal segment, so the path,
/// joined under the destination root and resolved lexically, never leaves
/// the destination root: there is no `..`, no `.`, no empty segment, and
/// no separator or drive marker hiding inside a segment.
pub proof fn lemma_sanitized_path_stays_within_root(name: Seq<char>)
    ensures
        forall|j: int| 0 <= j < sanitized(name).len()
            ==> normal_segment(#[trigger] sanitized(name)[j]),
{
    lemma_split_path_sep_free(name);
    lemma_sanitize_segments_normal(split_path(name));
}

/// The views of a sequence of owned strings.
pub open spec fn str_seq_view(v: Seq<String>) -> Seq<Seq<char>> {
    Seq::new(v.len(), |i: int| v[i]@)
}

fn seg_is_cur(seg: &str) -> (b: bool)
    ensures
        b == (seg@ == seq!['.']),
{
    if seg.unicode_len() == 1 {
        let c = seg.get_char(0);
        if c == '.' {
            proof {
                assert(seg@ =~= seq!['.']);
            }
            true
        } else {
            proof {
                assert(seg@ != seq!['.']) by {
                    if seg@ == seq!['.'] {
                        assert(seg@[0] == '.');
                    }
                }
            }
            false
        }
    } else {
        proof {
            assert(seg@ != seq!['.']) by {
                assert(seq!['.'].len() == 1);
            }
        }
        false
    }
}

fn seg_is_parent(seg: &str) -> (b: bool)
    ensures
        b == (seg@ == seq!['.', '.']),
{
    if seg.unicode_len() == 2 {
        let c0 = seg.get_char(0);
        let c1 = seg.get_char(1);
        if c0 == '.' && c1 == '.' {
            proof {
                assert(seg@ =~= seq!['.', '.']);
            }
            true
        } else {
            proof {
                assert(seg@ != seq!['.', '.']) by {
                    if seg@ == seq!['.', '.'] {
                        assert(seg@[0] == '.');
                        assert(seg@[1] == '.');
                    }
                }
            }
            false
        }
    } else {
        proof {
            assert(seg@ != seq!['.', '.']) by {
                assert(seq!['.', '.'].len() == 2);
            }
        }
        false
    }
}

fn seg_has_colon(seg: &str) -> (b: bool)
    ensures
        b == seg@.contains(':'),
{
    let n = seg.unicode_len();
    let mut k: usize = 0;
    while k < n
        invariant
            k <= n,
            n == seg@.len(),
            forall|j: int| 0 <= j < k ==> seg@[j] != ':',
        decreases n - k,
    {
        if seg.get_char(k) == ':' {
            proof {
                assert(seg@[k as int] == ':');
            }
            return true;
        }
        k = k + 1;
    }
    proof {
        assert(!seg@.contains(':')) by {
            if seg@.contains(':') {
                let j = choose|j: int| 0 <= j < seg@.len() && seg@[j] == ':';
                assert(seg@[j] != ':');
            }
        }
    }
    false
}

fn apply_segment_exec(res: &mut Vec<String>, seg: &str)
    ensures
        str_seq_view(final(res)@) == apply_segment(str_seq_view(old(res)@), seg@),
{
    if seg.unicode_len() == 0 {
        proof {
            assert(seg@.len() == 0);
        }
    } else if seg_is_cur(seg) {
    } else if seg_has_colon(seg) {
    } else if seg_is_parent(seg) {
        if res.len() > 0 {
            res.pop();
            proof {
                assert(str_seq_view(res@) =~= str_seq_view(old(res)@).drop_last());
            }
        }
    } else {
        let owned_seg = seg.to_owned();
        res.push(owned_seg);
        proof {
            assert(str_seq_view(res@) =~= str_seq_view(old(res)@).push(seg@));
        }
    }
}

proof fn lemma_split_path_step(s: Seq<char>, c: char)
    ensures
        is_separator(c) ==> split_path(s.push(c)) == split_path(s).push(Seq::<char>::empty()),
        !is_separator(c) ==> split_path(s.push(c))
            == split_path(s).drop_last().push(split_path(s).last().push(c)),
{
    assert(s.push(c).drop_last() =~= s);
    assert(s.push(c).last() == c);
    assert(s.push(c).len() > 0);
}

/// Normalize an archive entry name into the sequence of path segments that
/// is safe to join under the destination root.  Normal segments are kept,
/// `..` pops the previously kept segment if there is one, and everything
/// else (empty segments from separators, `.`, and drive-style segments
/// holding `:`) is dropped.
pub fn sanitize_path(path: &str) -> (res: Vec<String>)
    ensures
        str_seq_view(res@) == sanitized(path@),
{
    let n = path.unicode_len();
    let mut res: Vec<String> = Vec::new();
    let mut start: usize = 0;
    let mut i: usize = 0;
    proof {
        assert(path@.take(0) =~= Seq::<char>::empty());
        assert(str_seq_view(res@) =~= Seq::<Seq<char>>::empty());
        assert(split_path(path@.take(0)).last() =~= path@.subrange(0, 0));
    }
    while i < n
        invariant
            start <= i <= n,
            n == path@.len(),
            str_seq_view(res@) == sanitize_segments(split_path(path@.take(i as int)).drop_last()),
            split_path(path@.take(i as int)).last() == path@.subrange(start as int, i as int),
        decreases n - i,
    {
        let c = path.get_char(i);
        proof {
            assert(path@.take(i + 1) =~= path@.take(i as int).push(path@[i as int]));
            lemma_split_path_step(path@.take(i as int), path@[i as int]);
            lemma_split_path_len(path@.take(i as int));
        }
        if c == '/' || c == '\\' {
            let seg = path.substring_char(start, i);
            proof {
                assert(seg@ == split_path(path@.take(i as int)).last());
            }
            apply_segment_exec(&mut res, seg);
            proof {
                let prior = split_path(path@.take(i as int));
                assert(split_path(path@.take(i + 1)).drop_last() =~= prior);
                assert(sanitize_segments(prior)
                    == apply_segment(sanitize_segments(prior.drop_last()), prior.last()));
                assert(split_path(path@.take(i + 1)).last() =~= path@.subrange(i + 1, i + 1));
            }
            start = i + 1;
        } else {
            proof {
                let prior = split_path(path@.take(i as int));
                let stepped = split_path(path@.take(i + 1));
                assert(stepped == prior.drop_last().push(prior.last().push(path@[i as int])));
                assert(stepped.drop_last() =~= prior.drop_last());
                assert(stepped.last() == prior.last().push(path@[i as int]));
                assert(prior.last().push(path@[i as int])
                    =~= path@.subrange(start as int, i + 1));
            }
        }
        i = i + 1;
    }
    let seg = path.substring_char(start, n);
    proof {
        assert(path@.take(n as int) =~= path@);
        lemma_split_path_len(path@);
        assert(seg@ == split_path(path@).last());
    }
    apply_segment_exec(&mut res, seg);
    proof {
        assert(sanitized(path@)
            == apply_segment(sanitize_segments(split_path(path@).drop_last()), split_path(path@).last()));
    }
    res
}

} // verus!
