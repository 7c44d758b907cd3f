//! The key map of the RIFF INFO list: which chunk identifiers hold which
//! field.
//!
//! A field is read from the first of its identifiers under which the store
//! holds a value, in the order given here. It is written under the first
//! identifier alone, the canonical one; the others are older conventions
//! that are read and never written.

use vstd::prelude::*;
use crate::chunk::ChunkView;
use crate::decimal::u32_of_text;
use crate::store::{
    distinct, lemma_with_entry, lemma_without_entry, lookup, with_entry, without_entry,
};
use crate::text::opt_text_of;

verus! {

/// `INAM`, the title.
pub const INAM: [u8; 4] = [73, 78, 65, 77];

/// `IART`, the artist.
pub const IART: [u8; 4] = [73, 65, 82, 84];

/// `ICRD`, the date.
pub const ICRD: [u8; 4] = [73, 67, 82, 68];

/// `ICOP`, the copyright.
pub const ICOP: [u8; 4] = [73, 67, 79, 80];

/// `IGNR`, the genre.
pub const IGNR: [u8; 4] = [73, 71, 78, 82];

/// `IPRD`, the album.
pub const IPRD: [u8; 4] = [73, 80, 82, 68];

/// `ALBU`, the album, an older convention.
pub const ALBU: [u8; 4] = [65, 76, 66, 85];

/// `ITRK`, the track's number.
pub const ITRK: [u8; 4] = [73, 84, 82, 75];

/// `IPRT`, the track's number, an older convention.
pub const IPRT: [u8; 4] = [73, 80, 82, 84];

/// `TRAC`, the track's number, an older convention.
pub const TRAC: [u8; 4] = [84, 82, 65, 67];

/// `IFRM`, the number of tracks.
pub const IFRM: [u8; 4] = [73, 70, 82, 77];

/// `DISC`, the disc's number.
pub const DISC: [u8; 4] = [68, 73, 83, 67];

/// The fields that a RIFF INFO list can hold.
#[derive(Clone, Copy, Debug, PartialEq, Eq, Structural)]
pub enum Field {
    Title,
    Artist,
    Date,
    Copyright,
    Genre,
    AlbumTitle,
    TrackNumber,
    TotalTracks,
    DiscNumber,
}

impl Field {
    /// The identifiers that the field is read from, in order of precedence.
    pub open spec fn candidates(self) -> Seq<Seq<u8>> {
        match self {
            Field::Title => seq![INAM@],
            Field::Artist => seq![IART@],
            Field::Date => seq![ICRD@],
            Field::Copyright => seq![ICOP@],
            Field::Genre => seq![IGNR@],
            Field::AlbumTitle => seq![IPRD@, ALBU@],
            Field::TrackNumber => seq![ITRK@, IPRT@, TRAC@],
            Field::TotalTracks => seq![IFRM@],
            Field::DiscNumber => seq![DISC@],
        }
    }

    /// The identifier that the field is written under.
    pub open spec fn canonical(self) -> Seq<u8> {
        self.candidates()[0]
    }

    /// The number of identifiers that the field is read from.
    pub fn candidate_count(self) -> (r: usize)
        ensures
            r == self.candidates().len(),
            r >= 1,
    {
        match self {
            Field::AlbumTitle => 2,
            Field::TrackNumber => 3,
            _ => 1,
        }
    }

    /// The identifier at place `i` in the order of precedence.
    pub fn candidate(self, i: usize) -> (r: [u8; 4])
        requires
            i < self.candidates().len(),
        ensures
            r@ == self.candidates()[i as int],
    {
        match self {
            Field::Title => INAM,
            Field::Artist => IART,
            Field::Date => ICRD,
            Field::Copyright => ICOP,
            Field::Genre => IGNR,
            Field::AlbumTitle => if i == 0 {
                IPRD
            } else {
                ALBU
            },
            Field::TrackNumber => if i == 0 {
                ITRK
            } else if i == 1 {
                IPRT
            } else {
                TRAC
            },
            Field::TotalTracks => IFRM,
            Field::DiscNumber => DISC,
        }
    }

    /// The identifier that the field is written under.
    pub fn canonical_id(self) -> (r: [u8; 4])
        ensures
            r@ == self.canonical(),
    {
        self.candidate(0)
    }
}

/// The value under the first of `ids` under which the entries hold one.
pub open spec fn first_present(s: Seq<ChunkView>, ids: Seq<Seq<u8>>) -> Option<Seq<u8>>
    decreases ids.len(),
{
    if ids.len() == 0 {
        None
    } else {
        match lookup(s, ids[0]) {
            Some(v) => Some(v),
            None => first_present(s, ids.drop_first()),
        }
    }
}

/// The bytes of a field: the value under its first identifier that is there.
pub open spec fn field_bytes(s: Seq<ChunkView>, f: Field) -> Option<Seq<u8>> {
    first_present(s, f.candidates())
}

/// The text of a field; nothing where the bytes are no UTF-8.
pub open spec fn field_text(s: Seq<ChunkView>, f: Field) -> Option<Seq<char>> {
    opt_text_of(field_bytes(s, f))
}

/// The number of a field; nothing where the bytes are no decimal number.
pub open spec fn field_number(s: Seq<ChunkView>, f: Field) -> Option<u32> {
    match field_bytes(s, f) {
        Some(b) => u32_of_text(b),
        None => None,
    }
}

/// The entries after a field was written: under its canonical identifier.
pub open spec fn with_field(s: Seq<ChunkView>, f: Field, value: Seq<u8>) -> Seq<ChunkView> {
    with_entry(s, f.canonical(), value)
}

/// The entries after a field was removed: its canonical entry is gone.
pub open spec fn without_field(s: Seq<ChunkView>, f: Field) -> Seq<ChunkView> {
    without_entry(s, f.canonical())
}

/// Precedence: a field is read from its canonical identifier where a value
/// stands under it, whatever stands under the older ones; else from the
/// first older identifier under which a value stands.
pub proof fn lemma_precedence(s: Seq<ChunkView>, f: Field)
    ensures
        lookup(s, f.canonical()) is Some ==> field_bytes(s, f) == lookup(s, f.canonical()),
        forall|i: int|
            0 <= i < f.candidates().len() && lookup(s, #[trigger] f.candidates()[i]) is Some && (
            forall|j: int| 0 <= j < i ==> lookup(s, #[trigger] f.candidates()[j]) is None)
                ==> field_bytes(s, f) == lookup(s, f.candidates()[i]),
        (forall|i: int| 0 <= i < f.candidates().len() ==> lookup(s, #[trigger] f.candidates()[i])
            is None) ==> field_bytes(s, f) is None,
{
    let ids = f.candidates();
    reveal_with_fuel(first_present, 4);
    assert(ids.drop_first().len() == ids.len() - 1);
    if ids.len() >= 2 {
        assert(ids.drop_first()[0] == ids[1]);
    }
    if ids.len() >= 3 {
        assert(ids.drop_first().drop_first()[0] == ids[2]);
    }
    assert forall|i: int|
        0 <= i < ids.len() && lookup(s, #[trigger] ids[i]) is Some && (forall|j: int|
            0 <= j < i ==> lookup(s, #[trigger] ids[j]) is None) implies field_bytes(s, f)
        == lookup(s, ids[i]) by {
        if i >= 1 {
            assert(lookup(s, ids[0]) is None);
        }
        if i >= 2 {
            assert(lookup(s, ids[1]) is None);
        }
    }
    if forall|i: int| 0 <= i < ids.len() ==> lookup(s, #[trigger] ids[i]) is None {
        assert(lookup(s, ids[0]) is None);
        if ids.len() >= 2 {
            assert(lookup(s, ids[1]) is None);
        }
        if ids.len() >= 3 {
            assert(lookup(s, ids[2]) is None);
        }
    }
}

/// A field that was written is read back.
pub proof fn lemma_field_written(s: Seq<ChunkView>, f: Field, value: Seq<u8>)
    requires
        distinct(s),
    ensures
        field_bytes(with_field(s, f, value), f) == Some(value),
{
    lemma_with_entry(s, f.canonical(), value, f.canonical());
}

/// No identifier serves two fields: the canonical identifier of one field
/// is not among the identifiers of another.
pub proof fn lemma_candidates_apart(f: Field, g: Field)
    requires
        f != g,
    ensures
        forall|i: int| 0 <= i < g.candidates().len() ==> #[trigger] g.candidates()[i] != f.canonical(),
{
    assert forall|i: int| 0 <= i < g.candidates().len() implies #[trigger] g.candidates()[i]
        != f.canonical() by {
        let a = g.candidates()[i];
        let b = f.canonical();
        if a == b {
            assert(a[0] == b[0] && a[1] == b[1] && a[2] == b[2] && a[3] == b[3]);
        }
    }
}

/// Writing one field leaves every other field as it was.
pub proof fn lemma_field_kept(s: Seq<ChunkView>, f: Field, value: Seq<u8>, g: Field)
    requires
        distinct(s),
        f != g,
    ensures
        field_bytes(with_field(s, f, value), g) == field_bytes(s, g),
{
    lemma_candidates_apart(f, g);
    let ids = g.candidates();
    let t = with_field(s, f, value);
    reveal_with_fuel(first_present, 4);
    assert(ids.drop_first().len() == ids.len() - 1);
    lemma_with_entry(s, f.canonical(), value, ids[0]);
    if ids.len() >= 2 {
        assert(ids.drop_first()[0] == ids[1]);
        lemma_with_entry(s, f.canonical(), value, ids[1]);
    }
    if ids.len() >= 3 {
        assert(ids.drop_first().drop_first()[0] == ids[2]);
        lemma_with_entry(s, f.canonical(), value, ids[2]);
    }
}

/// Removing one field leaves every other field as it was.
pub proof fn lemma_field_kept_on_removal(s: Seq<ChunkView>, f: Field, g: Field)
    requires
        distinct(s),
        f != g,
    ensures
        field_bytes(without_field(s, f), g) == field_bytes(s, g),
{
    lemma_candidates_apart(f, g);
    let ids = g.candidates();
    reveal_with_fuel(first_present, 4);
    assert(ids.drop_first().len() == ids.len() - 1);
    lemma_without_entry(s, f.canonical(), ids[0]);
    if ids.len() >= 2 {
        assert(ids.drop_first()[0] == ids[1]);
        lemma_without_entry(s, f.canonical(), ids[1]);
    }
    if ids.len() >= 3 {
        assert(ids.drop_first().drop_first()[0] == ids[2]);
        lemma_without_entry(s, f.canonical(), ids[2]);
    }
}

} // verus!
