//! The native tag store: values under four-byte identifiers.
//!
//! The store keeps its entries in the order in which their identifiers
//! first came, and no identifier twice. Writing under an identifier that is
//! there replaces the value and keeps the place; the last write wins.

use vstd::prelude::*;
use vstd::slice::slice_to_vec;
use crate::chunk::{chunks_view, same_id, Chunk, ChunkView};

verus! {

/// The index of the first entry under `id`.
pub open spec fn position(s: Seq<ChunkView>, id: Seq<u8>) -> Option<int>
    decreases s.len(),
{
    if s.len() == 0 {
        None
    } else {
        match position(s.drop_last(), id) {
            Some(i) => Some(i),
            None => if s.last().id == id {
                Some(s.len() - 1)
            } else {
                None
            },
        }
    }
}

/// The value of the first entry under `id`.
pub open spec fn lookup(s: Seq<ChunkView>, id: Seq<u8>) -> Option<Seq<u8>> {
    match position(s, id) {
        Some(i) => Some(s[i].data),
        None => None,
    }
}

/// The entries after `value` was written under `id`: in the place of the
/// entry that was there, or else at the end.
pub open spec fn with_entry(s: Seq<ChunkView>, id: Seq<u8>, value: Seq<u8>) -> Seq<ChunkView> {
    match position(s, id) {
        Some(i) => s.update(i, ChunkView { id, data: value }),
        None => s.push(ChunkView { id, data: value }),
    }
}

/// The entries without the first one under `id`.
pub open spec fn without_entry(s: Seq<ChunkView>, id: Seq<u8>) -> Seq<ChunkView> {
    match position(s, id) {
        Some(i) => s.remove(i),
        None => s,
    }
}

/// No identifier stands twice.
pub open spec fn distinct(s: Seq<ChunkView>) -> bool {
    forall|i: int, j: int| 0 <= i < j < s.len() ==> (#[trigger] s[i]).id != (#[trigger] s[j]).id
}

/// The entries that chunks leave in a store when they are written one after
/// another: of chunks with the same identifier the last one wins.
pub open spec fn collected(cs: Seq<ChunkView>) -> Seq<ChunkView>
    decreases cs.len(),
{
    if cs.len() == 0 {
        Seq::<ChunkView>::empty()
    } else {
        with_entry(collected(cs.drop_last()), cs.last().id, cs.last().data)
    }
}

/// What `position` finds: the first index under the identifier, or that
/// there is none.
pub proof fn lemma_position(s: Seq<ChunkView>, id: Seq<u8>)
    ensures
        match position(s, id) {
            Some(i) => 0 <= i < s.len() && s[i].id == id && forall|j: int|
                0 <= j < i ==> (#[trigger] s[j]).id != id,
            None => forall|j: int| 0 <= j < s.len() ==> (#[trigger] s[j]).id != id,
        },
    decreases s.len(),
{
    if s.len() > 0 {
        lemma_position(s.drop_last(), id);
        assert forall|j: int| 0 <= j < s.len() - 1 implies s.drop_last()[j] == s[j] by {}
        match position(s.drop_last(), id) {
            Some(i) => {
                assert forall|j: int| 0 <= j < i implies (#[trigger] s[j]).id != id by {
                    assert(s.drop_last()[j].id != id);
                }
            },
            None => {
                assert forall|j: int| 0 <= j < s.len() - 1 implies (#[trigger] s[j]).id != id by {
                    assert(s.drop_last()[j].id != id);
                }
            },
        }
    }
}

/// An index under the identifier before which there is none is what
/// `position` finds.
pub proof fn lemma_position_at(s: Seq<ChunkView>, id: Seq<u8>, i: int)
    requires
        0 <= i < s.len(),
        s[i].id == id,
        forall|j: int| 0 <= j < i ==> (#[trigger] s[j]).id != id,
    ensures
        position(s, id) == Some(i),
{
    lemma_position(s, id);
}

/// Where no entry stands under the identifier, `position` finds none.
pub proof fn lemma_position_none(s: Seq<ChunkView>, id: Seq<u8>)
    requires
        forall|j: int| 0 <= j < s.len() ==> (#[trigger] s[j]).id != id,
    ensures
        position(s, id) is None,
{
    lemma_position(s, id);
}

/// A write is read back, and leaves the values under other identifiers as
/// they were; the entries stay distinct.
pub proof fn lemma_with_entry(s: Seq<ChunkView>, id: Seq<u8>, value: Seq<u8>, other: Seq<u8>)
    requires
        distinct(s),
    ensures
        distinct(with_entry(s, id, value)),
        lookup(with_entry(s, id, value), id) == Some(value),
        other != id ==> lookup(with_entry(s, id, value), other) == lookup(s, other),
{
    let t = with_entry(s, id, value);
    lemma_position(s, id);
    lemma_position(s, other);
    match position(s, id) {
        Some(i) => {
            assert forall|a: int, b: int| 0 <= a < b < t.len() implies (#[trigger] t[a]).id != (
            #[trigger] t[b]).id by {
                assert(t[a].id == s[a].id);
                assert(t[b].id == s[b].id);
            }
            assert forall|j: int| 0 <= j < i implies (#[trigger] t[j]).id != id by {
                assert(s[j].id != id);
            }
            lemma_position_at(t, id, i);
            if other != id {
                match position(s, other) {
                    Some(k) => {
                        assert forall|j: int| 0 <= j < k implies (#[trigger] t[j]).id != other by {
                            assert(s[j].id != other);
                        }
                        lemma_position_at(t, other, k);
                    },
                    None => {
                        assert forall|j: int| 0 <= j < t.len() implies (#[trigger] t[j]).id
                            != other by {
                            if j != i {
                                assert(s[j].id != other);
                            }
                        }
                        lemma_position_none(t, other);
                    },
                }
            }
        },
        None => {
            assert forall|a: int, b: int| 0 <= a < b < t.len() implies (#[trigger] t[a]).id != (
            #[trigger] t[b]).id by {
                assert(t[a] == s[a]);
                if b < s.len() {
                    assert(t[b] == s[b]);
                }
            }
            assert forall|j: int| 0 <= j < s.len() implies (#[trigger] t[j]).id != id by {
                assert(s[j].id != id);
            }
            lemma_position_at(t, id, s.len() as int);
            if other != id {
                match position(s, other) {
                    Some(k) => {
                        assert forall|j: int| 0 <= j < k implies (#[trigger] t[j]).id != other by {
                            assert(s[j].id != other);
                        }
                        lemma_position_at(t, other, k);
                    },
                    None => {
                        assert forall|j: int| 0 <= j < t.len() implies (#[trigger] t[j]).id
                            != other by {
                            if j < s.len() {
                                assert(s[j].id != other);
                            }
                        }
                        lemma_position_none(t, other);
                    },
                }
            }
        },
    }
}

/// After a removal nothing is found under the identifier, and the values
/// under other identifiers are as they were; the entries stay distinct.
pub proof fn lemma_without_entry(s: Seq<ChunkView>, id: Seq<u8>, other: Seq<u8>)
    requires
        distinct(s),
    ensures
        distinct(without_entry(s, id)),
        lookup(without_entry(s, id), id) is None,
        other != id ==> lookup(without_entry(s, id), other) == lookup(s, other),
{
    let t = without_entry(s, id);
    lemma_position(s, id);
    lemma_position(s, other);
    match position(s, id) {
        Some(i) => {
            assert forall|j: int| 0 <= j < t.len() implies #[trigger] t[j] == s[if j < i {
                j
            } else {
                j + 1
            }] by {}
            assert forall|a: int, b: int| 0 <= a < b < t.len() implies (#[trigger] t[a]).id != (
            #[trigger] t[b]).id by {
                let a2 = if a < i {
                    a
                } else {
                    a + 1
                };
                let b2 = if b < i {
                    b
                } else {
                    b + 1
                };
                assert(s[a2].id != s[b2].id);
            }
            assert forall|j: int| 0 <= j < t.len() implies (#[trigger] t[j]).id != id by {
                let j2 = if j < i {
                    j
                } else {
                    j + 1
                };
                if j2 < i {
                    assert(s[j2].id != id);
                } else {
                    assert(s[i].id != s[j2].id);
                }
            }
            lemma_position_none(t, id);
            if other != id {
                match position(s, other) {
                    Some(k) => {
                        let k2 = if k < i {
                            k
                        } else {
                            k - 1
                        };
                        assert(t[k2] == s[k]);
                        assert forall|j: int| 0 <= j < k2 implies (#[trigger] t[j]).id
                            != other by {
                            let j2 = if j < i {
                                j
                            } else {
                                j + 1
                            };
                            assert(s[j2].id != other);
                        }
                        lemma_position_at(t, other, k2);
                    },
                    None => {
                        assert forall|j: int| 0 <= j < t.len() implies (#[trigger] t[j]).id
                            != other by {
                            let j2 = if j < i {
                                j
                            } else {
                                j + 1
                            };
                            assert(s[j2].id != other);
                        }
                        lemma_position_none(t, other);
                    },
                }
            }
        },
        None => {},
    }
}

/// Entries of which none has its identifier twice are collected as they are.
pub proof fn lemma_collected_distinct(s: Seq<ChunkView>)
    requires
        distinct(s),
    ensures
        collected(s) == s,
    decreases s.len(),
{
    if s.len() > 0 {
        let p = s.drop_last();
        assert forall|i: int, j: int| 0 <= i < j < p.len() implies (#[trigger] p[i]).id != (
        #[trigger] p[j]).id by {
            assert(p[i] == s[i]);
            assert(p[j] == s[j]);
        }
        lemma_collected_distinct(p);
        assert forall|j: int| 0 <= j < p.len() implies (#[trigger] p[j]).id != s.last().id by {
            assert(p[j] == s[j]);
            assert(s[j].id != s[s.len() - 1].id);
        }
        lemma_position_none(p, s.last().id);
        assert(p.push(s.last()) =~= s);
    }
}

/// What is collected has no identifier twice.
pub proof fn lemma_collected_is_distinct(cs: Seq<ChunkView>)
    ensures
        distinct(collected(cs)),
    decreases cs.len(),
{
    if cs.len() > 0 {
        lemma_collected_is_distinct(cs.drop_last());
        lemma_with_entry(collected(cs.drop_last()), cs.last().id, cs.last().data, cs.last().id);
    }
}

/// Values under four-byte identifiers, in the order in which the identifiers
/// first came.
#[derive(Debug)]
pub struct TagStore {
    entries: Vec<Chunk>,
}

impl View for TagStore {
    type V = Seq<ChunkView>;

    closed spec fn view(&self) -> Seq<ChunkView> {
        chunks_view(self.entries@)
    }
}

impl TagStore {
    /// What holds of every store; `lemma_well_formed` says what it means.
    #[verifier::type_invariant]
    pub closed spec fn well_formed(self) -> bool {
        distinct(chunks_view(self.entries@))
    }

    /// In a store no identifier stands twice, and every identifier has four
    /// bytes.
    pub proof fn lemma_well_formed(self)
        requires
            self.well_formed(),
        ensures
            distinct(self@),
            forall|i: int| 0 <= i < self@.len() ==> (#[trigger] self@[i]).id.len() == 4,
    {
        assert forall|i: int| 0 <= i < self@.len() implies (#[trigger] self@[i]).id.len() == 4 by {
            vstd::array::array_len_matches_n(&self.entries@[i].id);
        }
    }

    /// An empty store.
    pub fn new() -> (r: TagStore)
        ensures
            r@ == Seq::<ChunkView>::empty(),
    {
        let entries: Vec<Chunk> = Vec::new();
        assert(chunks_view(entries@) =~= Seq::<ChunkView>::empty());
        TagStore { entries }
    }

    /// The number of entries.
    pub fn len(&self) -> (r: usize)
        ensures
            r == self@.len(),
    {
        self.entries.len()
    }

    /// The entry at `i`.
    pub fn entry(&self, i: usize) -> (r: &Chunk)
        requires
            i < self@.len(),
        ensures
            r@ == self@[i as int],
    {
        &self.entries[i]
    }

    /// The entries, in order.
    pub fn entries(&self) -> (r: &Vec<Chunk>)
        ensures
            chunks_view(r@) == self@,
    {
        &self.entries
    }

    /// The index of the entry under `id`.
    fn find(&self, id: &[u8; 4]) -> (r: Option<usize>)
        ensures
            match r {
                Some(i) => position(self@, id@) == Some(i as int) && i < self@.len(),
                None => position(self@, id@) is None,
            },
    {
        let mut i: usize = 0;
        while i < self.entries.len()
            invariant
                i <= self.entries.len(),
                forall|j: int| 0 <= j < i ==> (#[trigger] self@[j]).id != id@,
            decreases self.entries.len() - i,
        {
            if same_id(&self.entries[i].id, id) {
                proof {
                    assert(self@[i as int].id == id@);
                    lemma_position_at(self@, id@, i as int);
                }
                return Some(i);
            }
            assert(self@[i as int].id != id@);
            i = i + 1;
        }
        proof {
            lemma_position_none(self@, id@);
        }
        None
    }

    /// The value under `id`.
    pub fn get(&self, id: &[u8; 4]) -> (r: Option<&[u8]>)
        ensures
            match r {
                Some(b) => lookup(self@, id@) == Some(b@),
                None => lookup(self@, id@) is None,
            },
    {
        match self.find(id) {
            Some(i) => {
                let b = self.entries[i].data.as_slice();
                assert(self@[i as int].data == b@);
                Some(b)
            },
            None => None,
        }
    }

    /// Writes `value` under `id`: in the place of the value that is there,
    /// or else at the end.
    pub fn insert(&mut self, id: [u8; 4], value: &[u8])
        ensures
            final(self)@ == with_entry(old(self)@, id@, value@),
    {
        proof {
            use_type_invariant(&*self);
            lemma_with_entry(self@, id@, value@, id@);
        }
        let found = self.find(&id);
        let chunk = Chunk { id, data: slice_to_vec(value) };
        let ghost before = self@;
        let mut entries = self.take_entries();
        match found {
            Some(i) => {
                entries.set(i, chunk);
            },
            None => {
                entries.push(chunk);
            },
        }
        assert(chunks_view(entries@) =~= with_entry(before, id@, value@));
        *self = TagStore { entries };
    }

    /// Takes the entries out and leaves the store empty.
    fn take_entries(&mut self) -> (r: Vec<Chunk>)
        ensures
            chunks_view(r@) == old(self)@,
            final(self)@ == Seq::<ChunkView>::empty(),
    {
        let mut store = TagStore::new();
        core::mem::swap(self, &mut store);
        store.entries
    }

    /// Removes the entry under `id`, if there is one.
    pub fn remove(&mut self, id: &[u8; 4])
        ensures
            final(self)@ == without_entry(old(self)@, id@),
    {
        proof {
            use_type_invariant(&*self);
            lemma_without_entry(self@, id@, id@);
        }
        let ghost before = self@;
        match self.find(id) {
            Some(i) => {
                let mut entries = self.take_entries();
                entries.remove(i);
                assert(chunks_view(entries@) =~= without_entry(before, id@));
                *self = TagStore { entries };
            },
            None => {},
        }
    }

    /// The store that chunks leave when they are written one after another.
    pub fn from_chunks(chunks: &Vec<Chunk>) -> (r: TagStore)
        ensures
            r@ == collected(chunks_view(chunks@)),
    {
        let ghost cs = chunks_view(chunks@);
        let mut store = TagStore::new();
        let mut i: usize = 0;
        assert(cs.take(0) =~= Seq::<ChunkView>::empty());
        while i < chunks.len()
            invariant
                i <= chunks.len(),
                cs == chunks_view(chunks@),
                store@ == collected(cs.take(i as int)),
            decreases chunks.len() - i,
        {
            store.insert(chunks[i].id, chunks[i].data.as_slice());
            proof {
                let next = cs.take(i + 1);
                assert(next.drop_last() =~= cs.take(i as int));
                assert(next.last() == chunks@[i as int]@);
            }
            i = i + 1;
        }
        assert(cs.take(i as int) =~= cs);
        store
    }
}

} // verus!
