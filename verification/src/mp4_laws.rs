//! What holds of snapshots of MPEG-4 tags.
//!
//! A snapshot that a tag can hold is taken again, field for field, from the
//! tag that it was turned into. A tag does not take the cover from a
//! snapshot, so this holds of snapshots without a cover.

use vstd::prelude::*;
use crate::any_tag::AnyTagView;
use crate::decimal::{lemma_i32_round_trip, text_of_i32};
use crate::mp4_atoms::{
    atom, be16_at, bytes_under, data_bytes, data_image, data_string, first_bytes,
    first_bytes_index, image_under, images_of, not_under, string_under, strings_of, unless_zero, with_be16_at, with_only,
    with_strings, without, AtomModel, DataModel, IdentModel, ALBUM, ALBUM_ARTIST, ARTIST,
    ARTWORK, DISC_NUMBER, TITLE, TRACK_NUMBER, YEAR,
};
use crate::mp4_convert::{
    atoms_from, fresh_bytes, snapshot_of, with_names, with_number, with_text, with_total,
    with_year,
};
use crate::mp4_tag::{cover_of, lemma_year_text, low16, year_text};
use crate::text::lemma_ascii_is_text;

verus! {

/// No atom stands under `id`.
#[verifier::opaque]
pub open spec fn free_of(atoms: Seq<AtomModel>, id: u32) -> bool {
    forall|i: int| 0 <= i < atoms.len() ==> (#[trigger] atoms[i]).ident != IdentModel::FourCc(id)
}

/// A number that a tag keeps and gives back: not zero, and below 2^16.
pub open spec fn kept_number(n: Option<u32>) -> bool {
    n matches Some(v) ==> 1 <= v <= 65535
}

/// A snapshot that a tag made from it holds in full: no list of names is
/// empty, the numbers are such as a tag keeps, and the fields that are not
/// applied to a tag are absent.
pub open spec fn mp4_holds(v: AnyTagView) -> bool {
    &&& v.well_formed()
    &&& v.album.cover is None
    &&& kept_number(v.track_number)
    &&& kept_number(v.total_tracks)
    &&& kept_number(v.disc_number)
    &&& kept_number(v.total_discs)
    &&& v.comments is None
    &&& v.date is None
    &&& v.duration_ms is None
}

/// Where `first_bytes_index` finds an atom, that atom holds plain bytes
/// under the identifier.
pub proof fn lemma_first_bytes_index(atoms: Seq<AtomModel>, id: u32)
    ensures
        first_bytes_index(atoms, id) matches Some(i) ==> 0 <= i < atoms.len() && bytes_under(id)(
            atoms[i],
        ) is Some,
    decreases atoms.len(),
{
    if atoms.len() > 0 {
        lemma_first_bytes_index(atoms.drop_last(), id);
        if let Some(i) = first_bytes_index(atoms.drop_last(), id) {
            assert(atoms.drop_last()[i] == atoms[i]);
        }
    }
}

/// Where no atom stands under an identifier, nothing is read under it, and
/// dropping the atoms under it leaves all atoms.
pub proof fn lemma_free(atoms: Seq<AtomModel>, id: u32)
    requires
        free_of(atoms, id),
    ensures
        without(atoms, id) == atoms,
        first_bytes_index(atoms, id) is None,
        first_bytes(atoms, id) is None,
        strings_of(atoms, id) == Seq::<Seq<char>>::empty(),
        images_of(atoms, id) == Seq::<DataModel>::empty(),
    decreases atoms.len(),
{
    reveal(free_of);
    reveal(Seq::filter);
    if atoms.len() > 0 {
        let rest = atoms.drop_last();
        assert forall|i: int| 0 <= i < rest.len() implies (#[trigger] rest[i]).ident
            != IdentModel::FourCc(id) by {
            assert(rest[i] == atoms[i]);
        }
        lemma_free(rest, id);
        assert(atoms.last() == atoms[atoms.len() - 1]);
        assert(not_under(id)(atoms.last()));
        assert(rest.push(atoms.last()) =~= atoms);
    } else {
        assert(atoms.filter(not_under(id)) =~= atoms);
    }
}

/// What appending one atom does to what is read under every identifier.
pub proof fn lemma_push(atoms: Seq<AtomModel>, id: u32, d: DataModel)
    ensures
        forall|k: u32| #[trigger]
            strings_of(atoms.push(atom(id, d)), k) == if k == id && data_string(d) is Some {
                strings_of(atoms, k).push(data_string(d)->Some_0)
            } else {
                strings_of(atoms, k)
            },
        forall|k: u32| #[trigger]
            images_of(atoms.push(atom(id, d)), k) == if k == id && data_image(d) is Some {
                images_of(atoms, k).push(d)
            } else {
                images_of(atoms, k)
            },
        forall|k: u32| #[trigger]
            first_bytes(atoms.push(atom(id, d)), k) == match first_bytes(atoms, k) {
                Some(b) => Some(b),
                None => if k == id {
                    data_bytes(d)
                } else {
                    None
                },
            },
        forall|k: u32| #[trigger] free_of(atoms.push(atom(id, d)), k) == (free_of(atoms, k) && k != id),
{
    reveal(free_of);
    let x = atom(id, d);
    let t = atoms.push(x);
    assert(t.drop_last() =~= atoms);
    assert(t.last() == x);
    assert forall|k: u32| #[trigger]
        strings_of(t, k) == if k == id && data_string(d) is Some {
            strings_of(atoms, k).push(data_string(d)->Some_0)
        } else {
            strings_of(atoms, k)
        } by {
        if k == id && data_string(d) is Some {
            assert(strings_of(atoms, k) + seq![data_string(d)->Some_0] =~= strings_of(
                atoms,
                k,
            ).push(data_string(d)->Some_0));
        }
    }
    assert forall|k: u32| #[trigger]
        images_of(t, k) == if k == id && data_image(d) is Some {
            images_of(atoms, k).push(d)
        } else {
            images_of(atoms, k)
        } by {
        if k == id && data_image(d) is Some {
            assert(images_of(atoms, k) + seq![d] =~= images_of(atoms, k).push(d));
        }
    }
    assert forall|k: u32| #[trigger]
        first_bytes(t, k) == match first_bytes(atoms, k) {
            Some(b) => Some(b),
            None => if k == id {
                data_bytes(d)
            } else {
                None
            },
        } by {
        lemma_first_bytes_index(atoms, k);
        if let Some(i) = first_bytes_index(atoms, k) {
            assert(t[i] == atoms[i]);
        }
    }
    assert forall|k: u32| #[trigger] free_of(t, k) == (free_of(atoms, k) && k != id) by {
        if free_of(t, k) {
            assert(t[atoms.len() as int].ident != IdentModel::FourCc(k));
            assert forall|i: int| 0 <= i < atoms.len() implies (#[trigger] atoms[i]).ident
                != IdentModel::FourCc(k) by {
                assert(t[i] == atoms[i]);
            }
        }
        if free_of(atoms, k) && k != id {
            assert forall|i: int| 0 <= i < t.len() implies (#[trigger] t[i]).ident
                != IdentModel::FourCc(k) by {
                if i < atoms.len() {
                    assert(t[i] == atoms[i]);
                }
            }
        }
    }
}

/// What appending names does to what is read under every identifier.
pub proof fn lemma_names(atoms: Seq<AtomModel>, id: u32, names: Seq<Seq<char>>)
    ensures
        forall|k: u32| #[trigger]
            strings_of(with_strings(atoms, id, names), k) == if k == id {
                strings_of(atoms, k) + names
            } else {
                strings_of(atoms, k)
            },
        forall|k: u32| #[trigger] images_of(with_strings(atoms, id, names), k) == images_of(atoms, k),
        forall|k: u32| #[trigger] first_bytes(with_strings(atoms, id, names), k) == first_bytes(atoms, k),
        forall|k: u32| #[trigger]
            free_of(with_strings(atoms, id, names), k) == (free_of(atoms, k) && (k != id
                || names.len() == 0)),
    decreases names.len(),
{
    let t = with_strings(atoms, id, names);
    if names.len() == 0 {
        assert(t =~= atoms);
        assert forall|k: u32| #[trigger]
            free_of(t, k) == (free_of(atoms, k) && (k != id || names.len() == 0)) by {}
        assert forall|k: u32| #[trigger]
            strings_of(t, k) == if k == id {
                strings_of(atoms, k) + names
            } else {
                strings_of(atoms, k)
            } by {
            assert(strings_of(atoms, k) + names =~= strings_of(atoms, k));
        }
    } else {
        let rest = names.drop_last();
        let p = with_strings(atoms, id, rest);
        lemma_names(atoms, id, rest);
        lemma_push(p, id, DataModel::Utf8(names.last()));
        assert(t =~= p.push(atom(id, DataModel::Utf8(names.last()))));
        assert forall|k: u32| #[trigger]
            strings_of(t, k) == if k == id {
                strings_of(atoms, k) + names
            } else {
                strings_of(atoms, k)
            } by {
            if k == id {
                assert((strings_of(atoms, k) + rest).push(names.last()) =~= strings_of(atoms, k)
                    + names);
            }
        }
        assert forall|k: u32| #[trigger] images_of(t, k) == images_of(atoms, k) by {
            assert(images_of(p, k) == images_of(atoms, k));
        }
        assert forall|k: u32| #[trigger] first_bytes(t, k) == first_bytes(atoms, k) by {
            assert(first_bytes(p, k) == first_bytes(atoms, k));
        }
        assert forall|k: u32| #[trigger]
            free_of(t, k) == (free_of(atoms, k) && (k != id || names.len() == 0)) by {
            assert(free_of(p, k) == (free_of(atoms, k) && (k != id || rest.len() == 0)));
        }
    }
}

/// What appending any atom does to what is read under every identifier.
pub proof fn lemma_push_any(atoms: Seq<AtomModel>, x: AtomModel)
    ensures
        forall|k: u32| #[trigger]
            strings_of(atoms.push(x), k) == match string_under(k)(x) {
                Some(s) => strings_of(atoms, k).push(s),
                None => strings_of(atoms, k),
            },
        forall|k: u32| #[trigger]
            images_of(atoms.push(x), k) == match image_under(k)(x) {
                Some(d) => images_of(atoms, k).push(d),
                None => images_of(atoms, k),
            },
        forall|k: u32| #[trigger]
            first_bytes(atoms.push(x), k) == match first_bytes(atoms, k) {
                Some(b) => Some(b),
                None => bytes_under(k)(x),
            },
{
    let t = atoms.push(x);
    assert(t.drop_last() =~= atoms);
    assert(t.last() == x);
    assert forall|k: u32| #[trigger]
        strings_of(t, k) == match string_under(k)(x) {
            Some(s) => strings_of(atoms, k).push(s),
            None => strings_of(atoms, k),
        } by {
        if let Some(v) = string_under(k)(x) {
            assert(strings_of(atoms, k) + seq![v] =~= strings_of(atoms, k).push(v));
        }
    }
    assert forall|k: u32| #[trigger]
        images_of(t, k) == match image_under(k)(x) {
            Some(d) => images_of(atoms, k).push(d),
            None => images_of(atoms, k),
        } by {
        if let Some(d) = image_under(k)(x) {
            assert(images_of(atoms, k) + seq![d] =~= images_of(atoms, k).push(d));
        }
    }
    assert forall|k: u32| #[trigger]
        first_bytes(t, k) == match first_bytes(atoms, k) {
            Some(b) => Some(b),
            None => bytes_under(k)(x),
        } by {
        lemma_first_bytes_index(atoms, k);
        if let Some(i) = first_bytes_index(atoms, k) {
            assert(t[i] == atoms[i]);
        }
    }
}

/// After the atoms under an identifier were dropped, the identifier is
/// free, and what is read under every other identifier is as it was.
pub proof fn lemma_without(atoms: Seq<AtomModel>, id: u32)
    ensures
        free_of(without(atoms, id), id),
        forall|k: u32| k != id ==> #[trigger] strings_of(without(atoms, id), k) == strings_of(atoms, k),
        forall|k: u32| k != id ==> #[trigger] images_of(without(atoms, id), k) == images_of(atoms, k),
        forall|k: u32| k != id ==> #[trigger] first_bytes(without(atoms, id), k) == first_bytes(atoms, k),
    decreases atoms.len(),
{
    reveal(free_of);
    reveal(Seq::filter);
    if atoms.len() > 0 {
        let rest = atoms.drop_last();
        let x = atoms.last();
        lemma_without(rest, id);
        assert(rest.push(x) =~= atoms);
        lemma_push_any(rest, x);
        if not_under(id)(x) {
            assert(without(atoms, id) == without(rest, id).push(x));
            lemma_push_any(without(rest, id), x);
            assert forall|i: int| 0 <= i < without(atoms, id).len() implies (#[trigger] without(
                atoms,
                id,
            )[i]).ident != IdentModel::FourCc(id) by {
                if i < without(rest, id).len() {
                    assert(without(atoms, id)[i] == without(rest, id)[i]);
                }
            }
        } else {
            assert(without(atoms, id) == without(rest, id));
        }
    }
}

/// A string that was set is the one string that is read, and what is read
/// under every other identifier is as it was.
pub proof fn lemma_text_set(atoms: Seq<AtomModel>, id: u32, text: Seq<char>)
    ensures
        strings_of(with_only(atoms, id, DataModel::Utf8(text)), id) == seq![text],
        forall|k: u32|
            k != id ==> #[trigger] strings_of(with_only(atoms, id, DataModel::Utf8(text)), k)
                == strings_of(atoms, k),
        forall|k: u32|
            k != id ==> #[trigger] images_of(with_only(atoms, id, DataModel::Utf8(text)), k)
                == images_of(atoms, k),
        forall|k: u32|
            k != id ==> #[trigger] first_bytes(with_only(atoms, id, DataModel::Utf8(text)), k)
                == first_bytes(atoms, k),
{
    lemma_without(atoms, id);
    lemma_free(without(atoms, id), id);
    lemma_push(without(atoms, id), id, DataModel::Utf8(text));
    assert(Seq::<Seq<char>>::empty().push(text) =~= seq![text]);
}

/// After the atoms under an identifier were dropped, nothing is read under
/// it, and what is read under every other identifier is as it was.
pub proof fn lemma_removed(atoms: Seq<AtomModel>, id: u32)
    ensures
        strings_of(without(atoms, id), id) == Seq::<Seq<char>>::empty(),
        images_of(without(atoms, id), id) == Seq::<DataModel>::empty(),
        first_bytes(without(atoms, id), id) is None,
        forall|k: u32| k != id ==> #[trigger] strings_of(without(atoms, id), k) == strings_of(atoms, k),
        forall|k: u32| k != id ==> #[trigger] images_of(without(atoms, id), k) == images_of(atoms, k),
        forall|k: u32| k != id ==> #[trigger] first_bytes(without(atoms, id), k) == first_bytes(atoms, k),
{
    lemma_without(atoms, id);
    lemma_free(without(atoms, id), id);
}

/// Every snapshot of a tag is well formed: its lists of names are absent
/// rather than empty.
pub proof fn lemma_mp4_snapshot_well_formed(atoms: Seq<AtomModel>)
    ensures
        snapshot_of(atoms).well_formed(),
{
}

/// Setting a string under an identifier that is free appends one atom.
pub proof fn lemma_only(atoms: Seq<AtomModel>, id: u32, d: DataModel)
    requires
        free_of(atoms, id),
    ensures
        with_only(atoms, id, d) == atoms.push(atom(id, d)),
{
    lemma_free(atoms, id);
}

/// The atom that is left under an identifier that was free, after a number
/// and a total were set: none where both are absent, else one atom whose
/// bytes hold both, zero standing for the absent one.
pub open spec fn with_pair(atoms: Seq<AtomModel>, id: u32, number: Option<u32>, total: Option<u32>) -> Seq<
    AtomModel,
> {
    if number is None && total is None {
        atoms
    } else {
        atoms.push(
            atom(
                id,
                DataModel::Reserved(
                    fresh_bytes(
                        id,
                        match number {
                            Some(n) => low16(n),
                            None => 0,
                        },
                        match total {
                            Some(t) => low16(t),
                            None => 0,
                        },
                    ),
                ),
            ),
        )
    }
}

/// Setting a number and then a total under an identifier that was free
/// leaves one atom that holds both.
pub proof fn lemma_pair(atoms: Seq<AtomModel>, id: u32, number: Option<u32>, total: Option<u32>)
    requires
        free_of(atoms, id),
    ensures
        with_total(with_number(atoms, id, number), id, total) == with_pair(
            atoms,
            id,
            number,
            total,
        ),
{
    lemma_free(atoms, id);
    match number {
        Some(n) => {
            let b = fresh_bytes(id, low16(n), 0);
            lemma_only(atoms, id, DataModel::Reserved(b));
            let q = atoms.push(atom(id, DataModel::Reserved(b)));
            assert(with_number(atoms, id, number) == q);
            match total {
                Some(t) => {
                    assert(q.drop_last() =~= atoms);
                    assert(first_bytes_index(q, id) == Some(atoms.len() as int));
                    let b2 = with_be16_at(b, 4, low16(t));
                    assert(b2 =~= fresh_bytes(id, low16(n), low16(t)));
                    assert(with_total(q, id, total) =~= atoms.push(
                        atom(id, DataModel::Reserved(b2)),
                    ));
                },
                None => {},
            }
        },
        None => {
            match total {
                Some(t) => {
                    lemma_only(atoms, id, DataModel::Reserved(fresh_bytes(id, 0, low16(t))));
                },
                None => {},
            }
        },
    }
}

/// The number and the total that are read from the bytes of a new atom are
/// those that it was made with, zero reading as none.
pub proof fn lemma_fresh_bytes(id: u32, number: u16, total: u16)
    ensures
        unless_zero(be16_at(fresh_bytes(id, number, total), 2)) == if number == 0 {
            None
        } else {
            Some(number)
        },
        unless_zero(be16_at(fresh_bytes(id, number, total), 4)) == if total == 0 {
            None
        } else {
            Some(total)
        },
{
}

/// What is read from a tag for a snapshot: the strings under five
/// identifiers, the images, and the first plain bytes for track and disc.
pub struct Reading {
    pub title: Seq<Seq<char>>,
    pub artists: Seq<Seq<char>>,
    pub year: Seq<Seq<char>>,
    pub album: Seq<Seq<char>>,
    pub album_artists: Seq<Seq<char>>,
    pub images: Seq<DataModel>,
    pub track: Option<Seq<u8>>,
    pub disc: Option<Seq<u8>>,
}

/// What is read from atoms for a snapshot.
pub open spec fn reading(atoms: Seq<AtomModel>) -> Reading {
    Reading {
        title: strings_of(atoms, TITLE),
        artists: strings_of(atoms, ARTIST),
        year: strings_of(atoms, YEAR),
        album: strings_of(atoms, ALBUM),
        album_artists: strings_of(atoms, ALBUM_ARTIST),
        images: images_of(atoms, ARTWORK),
        track: first_bytes(atoms, TRACK_NUMBER),
        disc: first_bytes(atoms, DISC_NUMBER),
    }
}

/// A reading with strings appended under an identifier.
pub open spec fn plus_strings(r: Reading, id: u32, l: Seq<Seq<char>>) -> Reading {
    Reading {
        title: if id == TITLE {
            r.title + l
        } else {
            r.title
        },
        artists: if id == ARTIST {
            r.artists + l
        } else {
            r.artists
        },
        year: if id == YEAR {
            r.year + l
        } else {
            r.year
        },
        album: if id == ALBUM {
            r.album + l
        } else {
            r.album
        },
        album_artists: if id == ALBUM_ARTIST {
            r.album_artists + l
        } else {
            r.album_artists
        },
        images: r.images,
        track: r.track,
        disc: r.disc,
    }
}

/// A reading with plain bytes appended under an identifier: they are read
/// where none were there.
pub open spec fn plus_bytes(r: Reading, id: u32, b: Option<Seq<u8>>) -> Reading {
    Reading {
        title: r.title,
        artists: r.artists,
        year: r.year,
        album: r.album,
        album_artists: r.album_artists,
        images: r.images,
        track: if id == TRACK_NUMBER && r.track is None {
            b
        } else {
            r.track
        },
        disc: if id == DISC_NUMBER && r.disc is None {
            b
        } else {
            r.disc
        },
    }
}

/// A string as a list of one, or the empty list.
pub open spec fn as_list(text: Option<Seq<char>>) -> Seq<Seq<char>> {
    match text {
        Some(t) => seq![t],
        None => Seq::<Seq<char>>::empty(),
    }
}

/// Names, or the empty list.
pub open spec fn or_empty(names: Option<Seq<Seq<char>>>) -> Seq<Seq<char>> {
    match names {
        Some(l) => l,
        None => Seq::<Seq<char>>::empty(),
    }
}

/// The bytes of the atom that `with_pair` leaves.
pub open spec fn pair_bytes(id: u32, number: Option<u32>, total: Option<u32>) -> Option<Seq<u8>> {
    if number is None && total is None {
        None
    } else {
        Some(
            fresh_bytes(
                id,
                match number {
                    Some(n) => low16(n),
                    None => 0,
                },
                match total {
                    Some(t) => low16(t),
                    None => 0,
                },
            ),
        )
    }
}

/// Nothing is read from a tag without atoms, and every identifier is free.
pub proof fn lemma_reading_empty()
    ensures
        reading(Seq::<AtomModel>::empty()) == (Reading {
            title: Seq::<Seq<char>>::empty(),
            artists: Seq::<Seq<char>>::empty(),
            year: Seq::<Seq<char>>::empty(),
            album: Seq::<Seq<char>>::empty(),
            album_artists: Seq::<Seq<char>>::empty(),
            images: Seq::<DataModel>::empty(),
            track: None,
            disc: None,
        }),
        forall|k: u32| #[trigger] free_of(Seq::<AtomModel>::empty(), k),
{
    let a0 = Seq::<AtomModel>::empty();
    assert forall|k: u32| #[trigger] free_of(a0, k) by {
        reveal(free_of);
    }
    lemma_free(a0, TITLE);
    lemma_free(a0, ARTIST);
    lemma_free(a0, YEAR);
    lemma_free(a0, ALBUM);
    lemma_free(a0, ALBUM_ARTIST);
    lemma_free(a0, ARTWORK);
    lemma_free(a0, TRACK_NUMBER);
    lemma_free(a0, DISC_NUMBER);
}

/// What setting a string under a free identifier does to the reading.
pub proof fn lemma_step_text(atoms: Seq<AtomModel>, id: u32, text: Option<Seq<char>>)
    requires
        free_of(atoms, id),
    ensures
        reading(with_text(atoms, id, text)) == plus_strings(reading(atoms), id, as_list(text)),
        forall|k: u32| #[trigger]
            free_of(with_text(atoms, id, text), k) == (free_of(atoms, k) && (k != id || text
                is None)),
{
    let r = reading(atoms);
    match text {
        Some(t) => {
            lemma_only(atoms, id, DataModel::Utf8(t));
            lemma_push(atoms, id, DataModel::Utf8(t));
            let a = atoms.push(atom(id, DataModel::Utf8(t)));
            assert(with_text(atoms, id, text) == a);
            assert(strings_of(a, TITLE) =~= plus_strings(r, id, seq![t]).title);
            assert(strings_of(a, ARTIST) =~= plus_strings(r, id, seq![t]).artists);
            assert(strings_of(a, YEAR) =~= plus_strings(r, id, seq![t]).year);
            assert(strings_of(a, ALBUM) =~= plus_strings(r, id, seq![t]).album);
            assert(strings_of(a, ALBUM_ARTIST) =~= plus_strings(r, id, seq![t]).album_artists);
            assert(images_of(a, ARTWORK) == r.images);
            assert(first_bytes(a, TRACK_NUMBER) == r.track);
            assert(first_bytes(a, DISC_NUMBER) == r.disc);
        },
        None => {
            let e = Seq::<Seq<char>>::empty();
            assert(r.title + e =~= r.title);
            assert(r.artists + e =~= r.artists);
            assert(r.year + e =~= r.year);
            assert(r.album + e =~= r.album);
            assert(r.album_artists + e =~= r.album_artists);
        },
    }
}

/// What appending names does to the reading.
pub proof fn lemma_step_names(atoms: Seq<AtomModel>, id: u32, names: Option<Seq<Seq<char>>>)
    ensures
        reading(with_names(atoms, id, names)) == plus_strings(
            reading(atoms),
            id,
            or_empty(names),
        ),
        forall|k: u32| #[trigger]
            free_of(with_names(atoms, id, names), k) == (free_of(atoms, k) && (k != id
                || or_empty(names).len() == 0)),
{
    let r = reading(atoms);
    match names {
        Some(l) => {
            lemma_names(atoms, id, l);
            let a = with_strings(atoms, id, l);
            assert(strings_of(a, TITLE) == plus_strings(r, id, l).title);
            assert(strings_of(a, ARTIST) == plus_strings(r, id, l).artists);
            assert(strings_of(a, YEAR) == plus_strings(r, id, l).year);
            assert(strings_of(a, ALBUM) == plus_strings(r, id, l).album);
            assert(strings_of(a, ALBUM_ARTIST) == plus_strings(r, id, l).album_artists);
            assert(images_of(a, ARTWORK) == r.images);
            assert(first_bytes(a, TRACK_NUMBER) == r.track);
            assert(first_bytes(a, DISC_NUMBER) == r.disc);
        },
        None => {
            let e = Seq::<Seq<char>>::empty();
            assert(r.title + e =~= r.title);
            assert(r.artists + e =~= r.artists);
            assert(r.year + e =~= r.year);
            assert(r.album + e =~= r.album);
            assert(r.album_artists + e =~= r.album_artists);
        },
    }
}

/// What setting a number and a total under a free identifier does to the
/// reading.
pub proof fn lemma_step_pair(
    atoms: Seq<AtomModel>,
    id: u32,
    number: Option<u32>,
    total: Option<u32>,
)
    requires
        free_of(atoms, id),
    ensures
        reading(with_total(with_number(atoms, id, number), id, total)) == plus_bytes(
            reading(atoms),
            id,
            pair_bytes(id, number, total),
        ),
        forall|k: u32| #[trigger]
            free_of(with_total(with_number(atoms, id, number), id, total), k) == (free_of(
                atoms,
                k,
            ) && (k != id || pair_bytes(id, number, total) is None)),
{
    lemma_pair(atoms, id, number, total);
    lemma_free(atoms, id);
    let r = reading(atoms);
    match pair_bytes(id, number, total) {
        Some(b) => {
            lemma_push(atoms, id, DataModel::Reserved(b));
            let a = atoms.push(atom(id, DataModel::Reserved(b)));
            assert(with_total(with_number(atoms, id, number), id, total) == a);
            assert(strings_of(a, TITLE) == r.title);
            assert(strings_of(a, ARTIST) == r.artists);
            assert(strings_of(a, YEAR) == r.year);
            assert(strings_of(a, ALBUM) == r.album);
            assert(strings_of(a, ALBUM_ARTIST) == r.album_artists);
            assert(images_of(a, ARTWORK) == r.images);
            assert(first_bytes(a, TRACK_NUMBER) == plus_bytes(r, id, Some(b)).track);
            assert(first_bytes(a, DISC_NUMBER) == plus_bytes(r, id, Some(b)).disc);
        },
        None => {},
    }
}

/// What is read from the tag that a snapshot is turned into.
pub open spec fn reading_from(v: AnyTagView) -> Reading {
    Reading {
        title: as_list(v.title),
        artists: or_empty(v.artists),
        year: match v.year {
            Some(y) => seq![year_text(y)],
            None => Seq::<Seq<char>>::empty(),
        },
        album: as_list(v.album.title),
        album_artists: or_empty(v.album.artists),
        images: Seq::<DataModel>::empty(),
        track: pair_bytes(TRACK_NUMBER, v.track_number, v.total_tracks),
        disc: pair_bytes(DISC_NUMBER, v.disc_number, v.total_discs),
    }
}

/// The tag that a snapshot is turned into holds, under each identifier,
/// what the snapshot held in the field of that identifier.
pub proof fn lemma_reading_from(v: AnyTagView)
    ensures
        reading(atoms_from(v)) == reading_from(v),
{
    let a0 = Seq::<AtomModel>::empty();
    let a1 = with_text(a0, TITLE, v.title);
    let a2 = with_names(a1, ARTIST, v.artists);
    let a3 = with_year(a2, v.year);
    let a4 = with_text(a3, ALBUM, v.album.title);
    let a5 = with_names(a4, ALBUM_ARTIST, v.album.artists);
    let a7 = with_total(with_number(a5, TRACK_NUMBER, v.track_number), TRACK_NUMBER, v.total_tracks);
    let a9 = with_total(with_number(a7, DISC_NUMBER, v.disc_number), DISC_NUMBER, v.total_discs);
    let year = match v.year {
        Some(y) => Some(year_text(y)),
        None => None,
    };
    assert(a3 == with_text(a2, YEAR, year));
    lemma_reading_empty();
    lemma_step_text(a0, TITLE, v.title);
    lemma_step_names(a1, ARTIST, v.artists);
    assert(free_of(a2, YEAR));
    lemma_step_text(a2, YEAR, year);
    assert(free_of(a3, ALBUM));
    lemma_step_text(a3, ALBUM, v.album.title);
    lemma_step_names(a4, ALBUM_ARTIST, v.album.artists);
    assert(free_of(a5, TRACK_NUMBER));
    lemma_step_pair(a5, TRACK_NUMBER, v.track_number, v.total_tracks);
    assert(free_of(a7, DISC_NUMBER));
    lemma_step_pair(a7, DISC_NUMBER, v.disc_number, v.total_discs);
    let e = Seq::<Seq<char>>::empty();
    let r = reading(a9);
    let w = reading_from(v);
    assert(r.title =~= w.title);
    assert(r.artists =~= w.artists);
    assert(r.year =~= w.year);
    assert(r.album =~= w.album);
    assert(r.album_artists =~= w.album_artists);
    assert(r.images =~= w.images);
}

/// A tag holds every snapshot without a cover that is taken from one.
pub proof fn lemma_mp4_snapshot_held(atoms: Seq<AtomModel>)
    requires
        cover_of(atoms) is None,
    ensures
        mp4_holds(snapshot_of(atoms)),
{
}

/// A snapshot that a tag can hold is taken again, field for field, from the
/// tag that it was turned into.
pub proof fn lemma_mp4_round_trip(v: AnyTagView)
    requires
        mp4_holds(v),
    ensures
        snapshot_of(atoms_from(v)) == v,
{
    lemma_reading_from(v);
    let a = atoms_from(v);
    let r = reading(a);
    let w = snapshot_of(a);
    assert(w.title == v.title);
    assert(w.artists == v.artists) by {
        if let Some(l) = v.artists {
            if l.len() == 0 {
                assert(l =~= Seq::<Seq<char>>::empty());
            }
        }
    }
    assert(w.year == v.year) by {
        if let Some(y) = v.year {
            lemma_year_text(y);
            lemma_ascii_is_text(text_of_i32(y));
            lemma_i32_round_trip(y);
        }
    }
    assert(w.album.title == v.album.title);
    assert(w.album.artists == v.album.artists) by {
        if let Some(l) = v.album.artists {
            if l.len() == 0 {
                assert(l =~= Seq::<Seq<char>>::empty());
            }
        }
    }
    assert(w.album.cover == v.album.cover);
    let tn: u16 = match v.track_number {
        Some(n) => low16(n),
        None => 0,
    };
    let tt: u16 = match v.total_tracks {
        Some(n) => low16(n),
        None => 0,
    };
    lemma_fresh_bytes(TRACK_NUMBER, tn, tt);
    assert(w.track_number == v.track_number);
    assert(w.total_tracks == v.total_tracks);
    let dn: u16 = match v.disc_number {
        Some(n) => low16(n),
        None => 0,
    };
    let dt: u16 = match v.total_discs {
        Some(n) => low16(n),
        None => 0,
    };
    lemma_fresh_bytes(DISC_NUMBER, dn, dt);
    assert(w.disc_number == v.disc_number);
    assert(w.total_discs == v.total_discs);
}

/// Normalizing is stable: the snapshot of a tag without a cover, turned
/// into a new tag and taken again, is the same snapshot, field for field.
pub proof fn lemma_mp4_snapshot_stable(atoms: Seq<AtomModel>)
    requires
        cover_of(atoms) is None,
    ensures
        snapshot_of(atoms_from(snapshot_of(atoms))) == snapshot_of(atoms),
{
    lemma_mp4_snapshot_held(atoms);
    lemma_mp4_round_trip(snapshot_of(atoms));
}

} // verus!
