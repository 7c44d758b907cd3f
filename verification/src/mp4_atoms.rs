//! A model of the metadata atoms of an MPEG-4 tag.
//!
//! A tag is a sequence of atoms. Each atom has an identifier and one piece
//! of typed data. Readers look at the atoms under one identifier, in order;
//! writers drop atoms, append atoms, or change the bytes of one atom in
//! place. The functions here say what each of those operations yields.

use vstd::prelude::*;

verus! {

/// `©nam`, the title.
pub const TITLE: u32 = 0xa96e_616d;

/// `©ART`, an artist.
pub const ARTIST: u32 = 0xa941_5254;

/// `©alb`, the album's title.
pub const ALBUM: u32 = 0xa961_6c62;

/// `aART`, an artist of the album.
pub const ALBUM_ARTIST: u32 = 0x6141_5254;

/// `©day`, the year.
pub const YEAR: u32 = 0xa964_6179;

/// `covr`, artwork.
pub const ARTWORK: u32 = 0x636f_7672;

/// `trkn`, the track's number and the number of tracks.
pub const TRACK_NUMBER: u32 = 0x7472_6b6e;

/// `disk`, the disc's number and the number of discs.
pub const DISC_NUMBER: u32 = 0x6469_736b;

/// The typed data of an atom.
pub enum DataModel {
    Reserved(Seq<u8>),
    Utf8(Seq<char>),
    Utf16(Seq<char>),
    Jpeg(Seq<u8>),
    Png(Seq<u8>),
    BeSigned(Seq<u8>),
}

/// The identifier of an atom: a four-character code, held as the big-endian
/// number of its four bytes, or a free-form pair of strings.
pub enum IdentModel {
    FourCc(u32),
    Freeform { mean: Seq<char>, name: Seq<char> },
}

/// One atom.
pub struct AtomModel {
    pub ident: IdentModel,
    pub data: DataModel,
}

/// The atom with a four-character code and the given data.
pub open spec fn atom(id: u32, data: DataModel) -> AtomModel {
    AtomModel { ident: IdentModel::FourCc(id), data }
}

/// The string that a piece of data holds, if it is a string.
pub open spec fn data_string(d: DataModel) -> Option<Seq<char>> {
    match d {
        DataModel::Utf8(s) => Some(s),
        DataModel::Utf16(s) => Some(s),
        _ => None,
    }
}

/// The bytes that a piece of data holds, if it is plain bytes.
pub open spec fn data_bytes(d: DataModel) -> Option<Seq<u8>> {
    match d {
        DataModel::Reserved(b) => Some(b),
        DataModel::BeSigned(b) => Some(b),
        _ => None,
    }
}

/// The data itself, if it is an image.
pub open spec fn data_image(d: DataModel) -> Option<DataModel> {
    match d {
        DataModel::Jpeg(_) => Some(d),
        DataModel::Png(_) => Some(d),
        _ => None,
    }
}

/// The same kind of data over other bytes.
pub open spec fn with_bytes(d: DataModel, b: Seq<u8>) -> DataModel {
    match d {
        DataModel::Reserved(_) => DataModel::Reserved(b),
        DataModel::BeSigned(_) => DataModel::BeSigned(b),
        _ => d,
    }
}

/// The string of an atom that stands under `id`.
pub open spec fn string_under(id: u32) -> spec_fn(AtomModel) -> Option<Seq<char>> {
    |a: AtomModel|
        if a.ident == IdentModel::FourCc(id) {
            data_string(a.data)
        } else {
            None
        }
}

/// The bytes of an atom that stands under `id`.
pub open spec fn bytes_under(id: u32) -> spec_fn(AtomModel) -> Option<Seq<u8>> {
    |a: AtomModel|
        if a.ident == IdentModel::FourCc(id) {
            data_bytes(a.data)
        } else {
            None
        }
}

/// The image of an atom that stands under `id`.
pub open spec fn image_under(id: u32) -> spec_fn(AtomModel) -> Option<DataModel> {
    |a: AtomModel|
        if a.ident == IdentModel::FourCc(id) {
            data_image(a.data)
        } else {
            None
        }
}

/// Whether an atom stands under another identifier than `id`.
pub open spec fn not_under(id: u32) -> spec_fn(AtomModel) -> bool {
    |a: AtomModel| a.ident != IdentModel::FourCc(id)
}

/// All strings under `id`, in order.
pub open spec fn strings_of(atoms: Seq<AtomModel>, id: u32) -> Seq<Seq<char>> {
    atoms.filter_map(string_under(id))
}

/// All images under `id`, in order.
pub open spec fn images_of(atoms: Seq<AtomModel>, id: u32) -> Seq<DataModel> {
    atoms.filter_map(image_under(id))
}

/// The first item of a sequence, if it has one.
pub open spec fn first<T>(s: Seq<T>) -> Option<T> {
    if s.len() > 0 {
        Some(s[0])
    } else {
        None
    }
}

/// A sequence, unless it is empty.
pub open spec fn unless_empty<T>(s: Seq<T>) -> Option<Seq<T>> {
    if s.len() > 0 {
        Some(s)
    } else {
        None
    }
}

/// The atoms without those under `id`.
pub open spec fn without(atoms: Seq<AtomModel>, id: u32) -> Seq<AtomModel> {
    atoms.filter(not_under(id))
}

/// The atoms with `data` as the only one under `id`, at the end.
pub open spec fn with_only(atoms: Seq<AtomModel>, id: u32, data: DataModel) -> Seq<AtomModel> {
    without(atoms, id).push(atom(id, data))
}

/// The atoms with `data` appended under `id`.
pub open spec fn with_added(atoms: Seq<AtomModel>, id: u32, data: DataModel) -> Seq<AtomModel> {
    atoms.push(atom(id, data))
}

/// The atoms with an image appended under `id`; data that is no image is
/// not added.
pub open spec fn with_added_image(atoms: Seq<AtomModel>, id: u32, data: DataModel) -> Seq<
    AtomModel,
> {
    if data_image(data) is Some {
        with_added(atoms, id, data)
    } else {
        atoms
    }
}

/// The atoms with each of `strings` appended under `id`, in order.
pub open spec fn with_strings(atoms: Seq<AtomModel>, id: u32, strings: Seq<Seq<char>>) -> Seq<
    AtomModel,
> {
    atoms + Seq::new(strings.len(), |i: int| atom(id, DataModel::Utf8(strings[i])))
}

/// The index of the first atom that holds plain bytes under `id`.
pub open spec fn first_bytes_index(atoms: Seq<AtomModel>, id: u32) -> Option<int>
    decreases atoms.len(),
{
    if atoms.len() == 0 {
        None
    } else {
        match first_bytes_index(atoms.drop_last(), id) {
            Some(i) => Some(i),
            None => if bytes_under(id)(atoms.last()) is Some {
                Some(atoms.len() - 1)
            } else {
                None
            },
        }
    }
}

/// The first plain byte string under `id`.
pub open spec fn first_bytes(atoms: Seq<AtomModel>, id: u32) -> Option<Seq<u8>> {
    match first_bytes_index(atoms, id) {
        Some(i) => data_bytes(atoms[i].data),
        None => None,
    }
}

/// The atoms with the bytes of the atom at `i` replaced.
pub open spec fn with_bytes_at(atoms: Seq<AtomModel>, i: int, b: Seq<u8>) -> Seq<AtomModel> {
    atoms.update(i, AtomModel { ident: atoms[i].ident, data: with_bytes(atoms[i].data, b) })
}

/// The more significant byte of a 16-bit number.
pub open spec fn high_byte(n: u16) -> u8 {
    (n / 256) as u8
}

/// The less significant byte of a 16-bit number.
pub open spec fn low_byte(n: u16) -> u8 {
    (n % 256) as u8
}

/// The big-endian 16-bit number at `at`, if the bytes reach that far.
pub open spec fn be16_at(b: Seq<u8>, at: int) -> Option<u16> {
    if b.len() >= at + 2 {
        Some((b[at] * 256 + b[at + 1]) as u16)
    } else {
        None
    }
}

/// The bytes with the big-endian 16-bit number `n` at `at`, after they were
/// filled up with zeros to reach that far.
pub open spec fn with_be16_at(b: Seq<u8>, at: int, n: u16) -> Seq<u8> {
    let filled = if b.len() < at + 2 {
        b + Seq::new((at + 2 - b.len()) as nat, |i: int| 0u8)
    } else {
        b
    };
    filled.update(at, high_byte(n)).update(at + 1, low_byte(n))
}

/// A number that counts as present: zero stands for none.
pub open spec fn unless_zero(n: Option<u16>) -> Option<u16> {
    match n {
        Some(v) => if v == 0 {
            None
        } else {
            Some(v)
        },
        None => None,
    }
}

/// The number that the first plain bytes under `id` hold at `at`.
pub open spec fn pair_value(atoms: Seq<AtomModel>, id: u32, at: int) -> Option<u16> {
    match first_bytes(atoms, id) {
        Some(b) => unless_zero(be16_at(b, at)),
        None => None,
    }
}

/// The bytes of a new `trkn` atom.
pub open spec fn new_track_bytes(number: u16, total: u16) -> Seq<u8> {
    seq![
        0u8,
        0u8,
        high_byte(number),
        low_byte(number),
        high_byte(total),
        low_byte(total),
        0u8,
        0u8,
    ]
}

/// The bytes of a new `disk` atom.
pub open spec fn new_disc_bytes(number: u16, total: u16) -> Seq<u8> {
    seq![0u8, 0u8, high_byte(number), low_byte(number), high_byte(total), low_byte(total)]
}

/// The atoms after `n` was set at `at` under `id`: in the first plain bytes
/// there, or else in a new atom of the bytes `fresh` that replaces all atoms
/// under `id`.
pub open spec fn with_pair_value(
    atoms: Seq<AtomModel>,
    id: u32,
    at: int,
    n: u16,
    fresh: Seq<u8>,
) -> Seq<AtomModel> {
    match first_bytes_index(atoms, id) {
        Some(i) => with_bytes_at(atoms, i, with_be16_at(first_bytes(atoms, id).unwrap(), at, n)),
        None => with_only(atoms, id, DataModel::Reserved(fresh)),
    }
}

/// Whether the first plain bytes under `id` hold a number other than zero
/// at `at`, `reach` bytes or more being there.
pub open spec fn holds_other(atoms: Seq<AtomModel>, id: u32, at: int, reach: int) -> bool {
    match first_bytes(atoms, id) {
        Some(b) => b.len() >= reach && !(b[at] == 0 && b[at + 1] == 0),
        None => false,
    }
}

/// The atoms after the number was removed under `id`: it is set to zero
/// where the bytes hold a total, and else all atoms under `id` are dropped.
pub open spec fn without_number(atoms: Seq<AtomModel>, id: u32) -> Seq<AtomModel> {
    if holds_other(atoms, id, 4, 6) {
        with_bytes_at(
            atoms,
            first_bytes_index(atoms, id).unwrap(),
            first_bytes(atoms, id).unwrap().update(2, 0u8).update(3, 0u8),
        )
    } else {
        without(atoms, id)
    }
}

/// Whether the total can be removed under `id`: not where the bytes hold a
/// number and end before the total's two bytes.
pub open spec fn total_removable(atoms: Seq<AtomModel>, id: u32) -> bool {
    holds_other(atoms, id, 2, 4) ==> first_bytes(atoms, id).unwrap().len() >= 6
}

/// The atoms after the total was removed under `id`: it is set to zero
/// where the bytes hold a number, and else all atoms under `id` are dropped.
pub open spec fn without_total(atoms: Seq<AtomModel>, id: u32) -> Seq<AtomModel> {
    if holds_other(atoms, id, 2, 4) {
        with_bytes_at(
            atoms,
            first_bytes_index(atoms, id).unwrap(),
            first_bytes(atoms, id).unwrap().update(4, 0u8).update(5, 0u8),
        )
    } else {
        without(atoms, id)
    }
}

/// Typed data, borrowed: what `mp4ameta::Data` holds.
#[derive(Clone, Copy, Debug, PartialEq, Eq)]
pub enum Data<'a> {
    Reserved(&'a [u8]),
    Utf8(&'a str),
    Utf16(&'a str),
    Jpeg(&'a [u8]),
    Png(&'a [u8]),
    BeSigned(&'a [u8]),
}

impl<'a> View for Data<'a> {
    type V = DataModel;

    open spec fn view(&self) -> DataModel {
        match *self {
            Data::Reserved(b) => DataModel::Reserved(b@),
            Data::Utf8(s) => DataModel::Utf8(s@),
            Data::Utf16(s) => DataModel::Utf16(s@),
            Data::Jpeg(b) => DataModel::Jpeg(b@),
            Data::Png(b) => DataModel::Png(b@),
            Data::BeSigned(b) => DataModel::BeSigned(b@),
        }
    }
}

/// What optional data holds.
pub open spec fn opt_data_view(o: Option<Data>) -> Option<DataModel> {
    match o {
        Some(d) => Some(d@),
        None => None,
    }
}

/// What optional owned bytes hold.
pub open spec fn opt_vec_view(o: Option<Vec<u8>>) -> Option<Seq<u8>> {
    match o {
        Some(v) => Some(v@),
        None => None,
    }
}

} // verus!
