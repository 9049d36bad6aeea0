//! A case-insensitive name/value store for the headers of one HTTP message.
//!
//! Names are compared after ASCII lowercasing, so header names are
//! case-insensitive on both write and read, while the spelling used at
//! insertion is kept for serialization. The abstract view is a map from the
//! lowercased name to the value.

use crate::byteops::{bytes_eq, lower_bytes, to_lower};
use vstd::prelude::*;

verus! {

/// One message's headers, in insertion order.
pub struct HeaderMap {
    entries: Vec<(Vec<u8>, Vec<u8>)>,
}

/// The abstract contents of an entry sequence: a map from lowercased name
/// to value, later entries winning (well-formed maps have no duplicates).
pub open spec fn map_of(entries: Seq<(Seq<u8>, Seq<u8>)>) -> Map<Seq<u8>, Seq<u8>>
    decreases entries.len(),
{
    if entries.len() == 0 {
        Map::empty()
    } else {
        map_of(entries.drop_last()).insert(lower_bytes(entries.last().0), entries.last().1)
    }
}

/// No two entries share a lowercased name.
pub open spec fn wf_entries(entries: Seq<(Seq<u8>, Seq<u8>)>) -> bool {
    forall|i: int, j: int|
        0 <= i < j < entries.len() ==> lower_bytes(#[trigger] entries[i].0) != lower_bytes(
            #[trigger] entries[j].0,
        )
}

/// An entry whose lowercased name is `l` decides membership and value of `l`
/// in the abstract map.
pub proof fn lemma_map_of_match(entries: Seq<(Seq<u8>, Seq<u8>)>, l: Seq<u8>, i: int)
    requires
        wf_entries(entries),
        0 <= i < entries.len(),
        lower_bytes(entries[i].0) == l,
    ensures
        map_of(entries).contains_key(l),
        map_of(entries)[l] == entries[i].1,
    decreases entries.len(),
{
    if i == entries.len() - 1 {
    } else {
        assert(wf_entries(entries.drop_last())) by {
            assert(forall|x: int| 0 <= x < entries.len() - 1 ==> entries.drop_last()[x] == entries[x]);
        }
        lemma_map_of_match(entries.drop_last(), l, i);
    }
}

/// If no entry has lowercased name `l`, the abstract map has no key `l`.
pub proof fn lemma_map_of_no_match(entries: Seq<(Seq<u8>, Seq<u8>)>, l: Seq<u8>)
    requires
        forall|i: int| 0 <= i < entries.len() ==> lower_bytes(#[trigger] entries[i].0) != l,
    ensures
        !map_of(entries).contains_key(l),
    decreases entries.len(),
{
    if entries.len() > 0 {
        assert(forall|i: int|
            0 <= i < entries.drop_last().len() ==> entries.drop_last()[i] == entries[i]);
        lemma_map_of_no_match(entries.drop_last(), l);
    }
}

/// Replacing the entry that holds lowercased name `l` updates the abstract
/// map at `l`.
pub proof fn lemma_map_of_update(
    entries: Seq<(Seq<u8>, Seq<u8>)>,
    i: int,
    name: Seq<u8>,
    value: Seq<u8>,
)
    requires
        wf_entries(entries),
        0 <= i < entries.len(),
        lower_bytes(name) == lower_bytes(entries[i].0),
    ensures
        map_of(entries.update(i, (name, value))) == map_of(entries).insert(
            lower_bytes(name),
            value,
        ),
    decreases entries.len(),
{
    let updated = entries.update(i, (name, value));
    if i == entries.len() - 1 {
        assert(updated.drop_last() =~= entries.drop_last());
        assert(map_of(updated) =~= map_of(entries).insert(lower_bytes(name), value));
    } else {
        assert(wf_entries(entries.drop_last())) by {
            assert(forall|x: int| 0 <= x < entries.len() - 1 ==> entries.drop_last()[x] == entries[x]);
        }
        assert(updated.drop_last() =~= entries.drop_last().update(i, (name, value)));
        lemma_map_of_update(entries.drop_last(), i, name, value);
        assert(updated.last() == entries.last());
        assert(lower_bytes(entries.last().0) != lower_bytes(name));
        assert(map_of(updated) =~= map_of(entries).insert(lower_bytes(name), value));
    }
}

impl HeaderMap {
    /// The entries as they will be serialized, in insertion order.
    pub closed spec fn entries_seq(&self) -> Seq<(Seq<u8>, Seq<u8>)> {
        Seq::new(self.entries@.len(), |i: int| (self.entries@[i].0@, self.entries@[i].1@))
    }

    /// The abstract contents: lowercased name to value.
    pub open spec fn view(&self) -> Map<Seq<u8>, Seq<u8>> {
        map_of(self.entries_seq())
    }

    /// Well-formed: no two entries share a lowercased name.
    pub open spec fn wf(&self) -> bool {
        wf_entries(self.entries_seq())
    }

    /// An empty header map.
    pub fn new() -> (r: HeaderMap)
        ensures
            r.wf(),
            r@ == Map::<Seq<u8>, Seq<u8>>::empty(),
            r.entries_seq() == Seq::<(Seq<u8>, Seq<u8>)>::empty(),
    {
        let r = HeaderMap { entries: Vec::new() };
        proof {
            assert(r.entries_seq() =~= Seq::<(Seq<u8>, Seq<u8>)>::empty());
        }
        r
    }

    /// How many headers are stored.
    pub fn entry_count(&self) -> (n: usize)
        ensures
            n == self.entries_seq().len(),
    {
        self.entries.len()
    }

    /// The `i`-th stored header, in insertion order.
    pub fn entry_at(&self, i: usize) -> (r: &(Vec<u8>, Vec<u8>))
        requires
            i < self.entries_seq().len(),
        ensures
            (r.0@, r.1@) == self.entries_seq()[i as int],
    {
        &self.entries[i]
    }

    /// Insert `name: value`. A header whose name matches case-insensitively
    /// is replaced (keeping its position and taking the new spelling);
    /// otherwise the header is appended.
    pub fn insert(&mut self, name: Vec<u8>, value: Vec<u8>)
        requires
            old(self).wf(),
        ensures
            final(self).wf(),
            final(self)@ == old(self)@.insert(lower_bytes(name@), value@),
            !old(self)@.contains_key(lower_bytes(name@)) ==> final(self).entries_seq() == old(
                self,
            ).entries_seq().push((name@, value@)),
            old(self)@.contains_key(lower_bytes(name@)) ==> exists|i: int|
                0 <= i < old(self).entries_seq().len() && lower_bytes(
                    #[trigger] old(self).entries_seq()[i].0,
                ) == lower_bytes(name@) && final(self).entries_seq() == old(
                    self,
                ).entries_seq().update(i, (name@, value@)),
    {
        let lname = to_lower(name.as_slice());
        let mut i: usize = 0;
        while i < self.entries.len()
            invariant
                *self == *old(self),
                old(self).wf(),
                lname@ == lower_bytes(name@),
                i <= self.entries@.len(),
                forall|j: int|
                    0 <= j < i ==> lower_bytes(#[trigger] self.entries_seq()[j].0) != lower_bytes(
                        name@,
                    ),
            decreases self.entries@.len() - i,
        {
            let klow = to_lower(self.entries[i].0.as_slice());
            if bytes_eq(klow.as_slice(), lname.as_slice()) {
                proof {
                    lemma_map_of_match(self.entries_seq(), lower_bytes(name@), i as int);
                    lemma_map_of_update(self.entries_seq(), i as int, name@, value@);
                }
                let ghost prev = self.entries_seq();
                self.entries[i] = (name, value);
                proof {
                    assert(self.entries_seq() =~= prev.update(i as int, (name@, value@)));
                    let cur = self.entries_seq();
                    assert forall|x: int, y: int| 0 <= x < y < cur.len() implies lower_bytes(
                        #[trigger] cur[x].0,
                    ) != lower_bytes(#[trigger] cur[y].0) by {
                        assert(lower_bytes(cur[x].0) == lower_bytes(prev[x].0));
                        assert(lower_bytes(cur[y].0) == lower_bytes(prev[y].0));
                    }
                    assert((i as int) < prev.len() && lower_bytes(prev[i as int].0)
                        == lower_bytes(name@) && cur == prev.update(i as int, (name@, value@)));
                }
                return ;
            }
            i = i + 1;
        }
        proof {
            lemma_map_of_no_match(self.entries_seq(), lower_bytes(name@));
        }
        let ghost prev = self.entries_seq();
        self.entries.push((name, value));
        proof {
            assert(self.entries_seq() =~= prev.push((name@, value@)));
            assert(self.entries_seq().drop_last() =~= prev);
            assert(wf_entries(self.entries_seq()));
        }
    }

    /// Look `name` up case-insensitively.
    pub fn get(&self, name: &[u8]) -> (r: Option<&Vec<u8>>)
        requires
            self.wf(),
        ensures
            match r {
                Some(v) => self@.contains_key(lower_bytes(name@)) && v@ == self@[lower_bytes(
                    name@,
                )],
                None => !self@.contains_key(lower_bytes(name@)),
            },
    {
        let lname = to_lower(name);
        let mut i: usize = 0;
        while i < self.entries.len()
            invariant
                self.wf(),
                lname@ == lower_bytes(name@),
                i <= self.entries@.len(),
                forall|j: int|
                    0 <= j < i ==> lower_bytes(#[trigger] self.entries_seq()[j].0) != lower_bytes(
                        name@,
                    ),
            decreases self.entries@.len() - i,
        {
            let klow = to_lower(self.entries[i].0.as_slice());
            if bytes_eq(klow.as_slice(), lname.as_slice()) {
                proof {
                    lemma_map_of_match(self.entries_seq(), lower_bytes(name@), i as int);
                }
                return Some(&self.entries[i].1);
            }
            i = i + 1;
        }
        proof {
            lemma_map_of_no_match(self.entries_seq(), lower_bytes(name@));
        }
        None
    }

    /// Header lookup is case-insensitive: two lookup names with the same
    /// ASCII lowercasing see the same membership and the same value.
    pub proof fn lemma_lookup_case_insensitive(&self, a: Seq<u8>, b: Seq<u8>)
        requires
            lower_bytes(a) == lower_bytes(b),
        ensures
            self@.contains_key(lower_bytes(a)) == self@.contains_key(lower_bytes(b)),
            self@.contains_key(lower_bytes(a)) ==> self@[lower_bytes(a)] == self@[lower_bytes(b)],
    {
    }
}

} // verus!
