//! Splitting byte strings on a separator, with a specification-level
//! definition and executable implementations proved against it.
//!
//! `split_on` mirrors the usual leftmost, non-overlapping splitting: the
//! separator occurrences are found left to right, and the pieces between
//! them (possibly empty) are returned in order.

use vstd::prelude::*;

verus! {

/// Does `sep` occur in `s` starting at index `i`?
pub open spec fn matches_at(s: Seq<u8>, sep: Seq<u8>, i: int) -> bool {
    &&& 0 <= i
    &&& i + sep.len() <= s.len()
    &&& s.subrange(i, i + sep.len()) == sep
}

/// Index of the leftmost occurrence of `sep` in `s`, if any.
pub open spec fn find_sub(s: Seq<u8>, sep: Seq<u8>) -> Option<int>
    decreases s.len(),
{
    if s.len() < sep.len() {
        None
    } else if s.subrange(0, sep.len() as int) == sep {
        Some(0)
    } else if s.len() == 0 {
        None
    } else {
        match find_sub(s.skip(1), sep) {
            Some(i) => Some(i + 1),
            None => None,
        }
    }
}

/// The pieces of `s` between the leftmost occurrences of `sep`, in order.
pub open spec fn split_on(s: Seq<u8>, sep: Seq<u8>) -> Seq<Seq<u8>>
    decreases s.len(),
    via split_on_decreases
{
    if sep.len() == 0 {
        seq![s]
    } else {
        match find_sub(s, sep) {
            Some(i) => seq![s.subrange(0, i)] + split_on(s.skip(i + sep.len()), sep),
            None => seq![s],
        }
    }
}

#[via_fn]
proof fn split_on_decreases(s: Seq<u8>, sep: Seq<u8>) {
    if sep.len() > 0 {
        lemma_find_sub_characterization(s, sep);
    }
}

/// `find_sub` returns exactly the leftmost occurrence of `sep`.
pub proof fn lemma_find_sub_characterization(s: Seq<u8>, sep: Seq<u8>)
    ensures
        match find_sub(s, sep) {
            Some(i) => matches_at(s, sep, i) && (forall|j: int|
                0 <= j < i ==> !matches_at(s, sep, j)),
            None => forall|j: int| !matches_at(s, sep, j),
        },
    decreases s.len(),
{
    if s.len() < sep.len() {
        assert(forall|j: int| !matches_at(s, sep, j));
    } else if s.subrange(0, sep.len() as int) == sep {
        assert(matches_at(s, sep, 0));
    } else if s.len() == 0 {
        assert(forall|j: int| !matches_at(s, sep, j));
    } else {
        lemma_find_sub_characterization(s.skip(1), sep);
        assert forall|j: int| 1 <= j implies matches_at(s, sep, j) == matches_at(
            s.skip(1),
            sep,
            j - 1,
        ) by {
            if 0 <= j - 1 && j - 1 + sep.len() <= s.skip(1).len() {
                assert(s.skip(1).subrange(j - 1, j - 1 + sep.len()) =~= s.subrange(
                    j,
                    j + sep.len(),
                ));
            }
        }
        match find_sub(s.skip(1), sep) {
            Some(i) => {
                assert(find_sub(s, sep) == Some(i + 1));
                assert(matches_at(s, sep, i + 1));
                assert forall|j: int| 0 <= j < i + 1 implies !matches_at(s, sep, j) by {
                    if j == 0 {
                        assert(s.subrange(0, sep.len() as int) != sep);
                    }
                }
            },
            None => {
                assert forall|j: int| !matches_at(s, sep, j) by {
                    if j == 0 {
                        assert(s.subrange(0, sep.len() as int) != sep);
                    }
                }
            },
        }
    }
}

/// If `i` is an occurrence of `sep` and nothing earlier is, then `find_sub`
/// returns `i`.
pub proof fn lemma_find_sub_unique(s: Seq<u8>, sep: Seq<u8>, i: int)
    requires
        matches_at(s, sep, i),
        forall|j: int| 0 <= j < i ==> !matches_at(s, sep, j),
    ensures
        find_sub(s, sep) == Some(i),
{
    lemma_find_sub_characterization(s, sep);
    match find_sub(s, sep) {
        Some(k) => {
            if k < i {
                assert(!matches_at(s, sep, k));
            }
            if i < k {
                assert(!matches_at(s, sep, i));
            }
        },
        None => {
            assert(!matches_at(s, sep, i));
        },
    }
}

/// If `sep` occurs nowhere in `s`, `find_sub` returns `None`.
pub proof fn lemma_find_sub_none(s: Seq<u8>, sep: Seq<u8>)
    requires
        forall|j: int| !matches_at(s, sep, j),
    ensures
        find_sub(s, sep) is None,
{
    lemma_find_sub_characterization(s, sep);
    match find_sub(s, sep) {
        Some(k) => {
            assert(!matches_at(s, sep, k));
        },
        None => {},
    }
}

/// Splitting a string with no separator occurrence yields the string itself.
pub proof fn lemma_split_on_whole(s: Seq<u8>, sep: Seq<u8>)
    requires
        sep.len() > 0,
        forall|j: int| !matches_at(s, sep, j),
    ensures
        split_on(s, sep) == seq![s],
{
    lemma_find_sub_none(s, sep);
}

/// Splitting `a + sep + b` when `sep` occurs nowhere in `a` and no occurrence
/// straddles the boundary of `a` and `sep` peels off `a` as the first piece.
pub proof fn lemma_split_on_concat(a: Seq<u8>, b: Seq<u8>, sep: Seq<u8>)
    requires
        sep.len() > 0,
        forall|j: int| !matches_at(a + sep, sep, j) || j == a.len(),
    ensures
        split_on(a + sep + b, sep) == seq![a] + split_on(b, sep),
{
    let s = a + sep + b;
    assert(matches_at(s, sep, a.len() as int)) by {
        assert(s.subrange(a.len() as int, a.len() + sep.len() as int) =~= sep);
    }
    assert forall|j: int| 0 <= j < a.len() implies !matches_at(s, sep, j) by {
        if j + sep.len() <= (a + sep).len() {
            assert((a + sep).subrange(j, j + sep.len()) =~= s.subrange(j, j + sep.len()));
            assert(!matches_at(a + sep, sep, j));
        }
    }
    lemma_find_sub_unique(s, sep, a.len() as int);
    assert(s.subrange(0, a.len() as int) =~= a);
    assert(s.skip(a.len() + sep.len() as int) =~= b);
}

/// Occurrence of a single-byte separator is just membership of that byte.
pub proof fn lemma_matches_at_single(s: Seq<u8>, c: u8)
    ensures
        forall|j: int| #![trigger matches_at(s, seq![c], j)]
            matches_at(s, seq![c], j) == (0 <= j < s.len() && s[j] == c),
{
    assert forall|j: int| 0 <= j < s.len() && s[j] == c implies matches_at(s, seq![c], j) by {
        assert(s.subrange(j, j + 1) =~= seq![c]);
    }
    assert forall|j: int| matches_at(s, seq![c], j) implies 0 <= j < s.len() && s[j] == c by {
        assert(s.subrange(j, j + 1)[0] == s[j]);
    }
}

/// Find the leftmost occurrence of `sep` in `s`.
pub fn find_first(s: &[u8], sep: &[u8]) -> (r: Option<usize>)
    requires
        sep@.len() > 0,
    ensures
        match r {
            Some(i) => find_sub(s@, sep@) == Some(i as int),
            None => find_sub(s@, sep@) is None,
        },
{
    if s.len() < sep.len() {
        proof {
            lemma_find_sub_characterization(s@, sep@);
        }
        return None;
    }
    let mut i: usize = 0;
    let last: usize = s.len() - sep.len();
    while i <= last
        invariant
            sep@.len() > 0,
            s@.len() >= sep@.len(),
            last == s@.len() - sep@.len(),
            last + sep@.len() <= usize::MAX,
            i <= last + 1,
            forall|j: int| 0 <= j < i ==> !matches_at(s@, sep@, j),
        decreases last + 1 - i,
    {
        let piece = vstd::slice::slice_subrange(s, i, i + sep.len());
        if crate::byteops::bytes_eq(piece, sep) {
            proof {
                lemma_find_sub_unique(s@, sep@, i as int);
            }
            return Some(i);
        }
        proof {
            assert(!matches_at(s@, sep@, i as int));
        }
        i = i + 1;
    }
    proof {
        assert forall|j: int| !matches_at(s@, sep@, j) by {
            if 0 <= j <= last {
                assert(!matches_at(s@, sep@, j));
            }
        }
        lemma_find_sub_none(s@, sep@);
    }
    None
}

/// Split `s` on every leftmost occurrence of `sep`, in order.
pub fn split_all(s: &[u8], sep: &[u8]) -> (r: Vec<Vec<u8>>)
    requires
        sep@.len() > 0,
    ensures
        r.deep_view() == split_on(s@, sep@),
        r@.len() > 0,
{
    let mut pieces: Vec<Vec<u8>> = Vec::new();
    let mut start: usize = 0;
    proof {
        assert(s@.skip(0) =~= s@);
        assert(pieces.deep_view() =~= Seq::<Seq<u8>>::empty());
        assert(Seq::<Seq<u8>>::empty() + split_on(s@, sep@) =~= split_on(s@, sep@));
    }
    loop
        invariant
            sep@.len() > 0,
            start <= s@.len(),
            split_on(s@, sep@) == pieces.deep_view() + split_on(s@.skip(start as int), sep@),
        decreases s@.len() - start,
    {
        let rest = vstd::slice::slice_subrange(s, start, s.len());
        proof {
            assert(rest@ =~= s@.skip(start as int));
        }
        match find_first(rest, sep) {
            Some(i) => {
                proof {
                    lemma_find_sub_characterization(rest@, sep@);
                }
                let ghost prev = pieces.deep_view();
                let piece = vstd::slice::slice_to_vec(vstd::slice::slice_subrange(rest, 0, i));
                pieces.push(piece);
                start = start + i + sep.len();
                proof {
                    assert(pieces.deep_view() =~~= prev + seq![rest@.subrange(0, i as int)]);
                    assert(rest@.skip(i + sep@.len()) =~= s@.skip(start as int));
                    assert(split_on(rest@, sep@) == seq![rest@.subrange(0, i as int)]
                        + split_on(s@.skip(start as int), sep@));
                    assert(prev + (seq![rest@.subrange(0, i as int)] + split_on(
                        s@.skip(start as int),
                        sep@,
                    )) =~= pieces.deep_view() + split_on(s@.skip(start as int), sep@));
                }
            },
            None => {
                let ghost prev = pieces.deep_view();
                pieces.push(vstd::slice::slice_to_vec(rest));
                proof {
                    assert(split_on(rest@, sep@) == seq![rest@]);
                    assert(pieces.deep_view() =~~= prev + seq![rest@]);
                }
                return pieces;
            },
        }
    }
}

/// Concatenate `parts` with `sep` between consecutive parts.
pub open spec fn join_with(parts: Seq<Seq<u8>>, sep: Seq<u8>) -> Seq<u8>
    decreases parts.len(),
{
    if parts.len() == 0 {
        Seq::empty()
    } else if parts.len() == 1 {
        parts[0]
    } else {
        parts[0] + sep + join_with(parts.skip(1), sep)
    }
}

/// Joining is also one separator and one part appended to the join of the
/// rest.
pub proof fn lemma_join_snoc(parts: Seq<Seq<u8>>, sep: Seq<u8>)
    requires
        parts.len() >= 2,
    ensures
        join_with(parts, sep) == join_with(parts.drop_last(), sep) + sep + parts.last(),
    decreases parts.len(),
{
    if parts.len() == 2 {
        assert(parts.skip(1) =~= seq![parts[1]]);
        assert(parts.drop_last() =~= seq![parts[0]]);
        assert(join_with(parts, sep) =~= join_with(parts.drop_last(), sep) + sep + parts.last());
    } else {
        lemma_join_snoc(parts.skip(1), sep);
        assert(parts.skip(1).drop_last() =~= parts.drop_last().skip(1));
        assert(parts.skip(1).last() == parts.last());
        assert(parts.drop_last()[0] == parts[0]);
        assert(join_with(parts, sep) == parts[0] + sep + join_with(parts.skip(1), sep));
        assert(join_with(parts.drop_last(), sep) == parts.drop_last()[0] + sep + join_with(
            parts.drop_last().skip(1),
            sep,
        ));
        assert(join_with(parts.skip(1), sep) == join_with(parts.drop_last().skip(1), sep) + sep
            + parts.last());
        assert(join_with(parts, sep) =~= join_with(parts.drop_last(), sep) + sep + parts.last());
    }
}

} // verus!
