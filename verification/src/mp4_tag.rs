//! The tag of an MPEG-4 file.
//!
//! `Mp4Tag` keeps a `mp4ameta::Tag`. What it holds is the sequence of atoms
//! `self@`; every method says which field of that sequence it reads, or what
//! sequence it leaves behind.

use vstd::prelude::*;
use vstd::utf8::encode_utf8;
use crate::decimal::{format_i32, i32_of_text, parse_i32, text_of_i32};
use crate::error::Error;
use crate::mp4_atoms::{
    first, images_of, new_disc_bytes, new_track_bytes, pair_value, strings_of,
    total_removable, unless_empty, with_added, with_only, with_pair_value, without,
    without_number, without_total, AtomModel, Data, DataModel, ALBUM, ALBUM_ARTIST, ARTIST,
    ARTWORK, DISC_NUMBER, TITLE, TRACK_NUMBER, YEAR,
};
use crate::mp4_inner::{
    tag_add_album_artist, tag_add_artist, tag_add_artwork, tag_album, tag_album_artists,
    tag_artist, tag_artists, tag_artwork, tag_atoms, tag_disc_number, tag_first_bytes, tag_new,
    tag_remove_album, tag_remove_album_artists, tag_remove_artists, tag_remove_artwork,
    tag_remove_data, tag_remove_disc, tag_remove_disc_number, tag_remove_title,
    tag_remove_total_discs, tag_remove_total_tracks, tag_remove_track, tag_remove_track_number,
    tag_remove_year, tag_set_album, tag_set_album_artist, tag_set_artist, tag_set_disc_number,
    tag_set_title, tag_set_total_discs, tag_set_total_tracks, tag_set_track_number, tag_set_year,
    tag_title, tag_total_discs, tag_total_tracks, tag_track_number, tag_year,
};
use crate::picture::{opt_picture_view, MimeType, Picture, PictureView};
use crate::text::{
    all_ascii, ascii_chars, lemma_ascii_is_text, opt_str_view, opt_strs_view, str_from_utf8,
};

verus! {

/// A 16-bit number as a 32-bit one.
pub open spec fn widen(n: Option<u16>) -> Option<u32> {
    match n {
        Some(v) => Some(v as u32),
        None => None,
    }
}

/// The sixteen low bits of a number: what a tag keeps of it.
pub open spec fn low16(n: u32) -> u16 {
    (n % 65536) as u16
}

/// The picture that a piece of data is, if it is an image.
pub open spec fn picture_of(d: DataModel) -> Option<PictureView> {
    match d {
        DataModel::Png(b) => Some(PictureView { data: b, mime_type: MimeType::Png }),
        DataModel::Jpeg(b) => Some(PictureView { data: b, mime_type: MimeType::Jpeg }),
        _ => None,
    }
}

/// The data that a tag keeps for a picture: only PNG and JPEG can be kept.
pub open spec fn image_of(p: PictureView) -> Option<DataModel> {
    match p.mime_type {
        MimeType::Png => Some(DataModel::Png(p.data)),
        MimeType::Jpeg => Some(DataModel::Jpeg(p.data)),
        _ => None,
    }
}

/// The text that a tag keeps for a year.
pub open spec fn year_text(year: i32) -> Seq<char> {
    ascii_chars(text_of_i32(year))
}

/// The title: the first string under `©nam`.
pub open spec fn title_of(atoms: Seq<AtomModel>) -> Option<Seq<char>> {
    first(strings_of(atoms, TITLE))
}

/// The first artist.
pub open spec fn artist_of(atoms: Seq<AtomModel>) -> Option<Seq<char>> {
    first(strings_of(atoms, ARTIST))
}

/// All artists, in order; none rather than an empty list.
pub open spec fn artists_of(atoms: Seq<AtomModel>) -> Option<Seq<Seq<char>>> {
    unless_empty(strings_of(atoms, ARTIST))
}

/// The year: the first string under `©day`, read as a number.
pub open spec fn year_of(atoms: Seq<AtomModel>) -> Option<i32> {
    match first(strings_of(atoms, YEAR)) {
        Some(s) => i32_of_text(encode_utf8(s)),
        None => None,
    }
}

/// The album's title.
pub open spec fn album_title_of(atoms: Seq<AtomModel>) -> Option<Seq<char>> {
    first(strings_of(atoms, ALBUM))
}

/// The album's artists, in order; none rather than an empty list.
pub open spec fn album_artists_of(atoms: Seq<AtomModel>) -> Option<Seq<Seq<char>>> {
    unless_empty(strings_of(atoms, ALBUM_ARTIST))
}

/// The cover: the first image under `covr`.
pub open spec fn cover_of(atoms: Seq<AtomModel>) -> Option<PictureView> {
    match first(images_of(atoms, ARTWORK)) {
        Some(d) => picture_of(d),
        None => None,
    }
}

/// The track's number.
pub open spec fn track_number_of(atoms: Seq<AtomModel>) -> Option<u32> {
    widen(pair_value(atoms, TRACK_NUMBER, 2))
}

/// The number of tracks.
pub open spec fn total_tracks_of(atoms: Seq<AtomModel>) -> Option<u32> {
    widen(pair_value(atoms, TRACK_NUMBER, 4))
}

/// The disc's number.
pub open spec fn disc_number_of(atoms: Seq<AtomModel>) -> Option<u32> {
    widen(pair_value(atoms, DISC_NUMBER, 2))
}

/// The number of discs.
pub open spec fn total_discs_of(atoms: Seq<AtomModel>) -> Option<u32> {
    widen(pair_value(atoms, DISC_NUMBER, 4))
}

/// The atoms after a cover was set: it replaces all atoms under `covr`.
pub open spec fn with_cover(atoms: Seq<AtomModel>, image: DataModel) -> Seq<AtomModel> {
    with_added(without(atoms, ARTWORK), ARTWORK, image)
}

/// The atoms after the total of tracks or discs was removed under `id`.
/// Bytes that hold a number and end before the total hold no total: they
/// stay as they are.
pub open spec fn with_total_removed(atoms: Seq<AtomModel>, id: u32) -> Seq<AtomModel> {
    if total_removable(atoms, id) {
        without_total(atoms, id)
    } else {
        atoms
    }
}

impl<'a> Picture<'a> {
    /// The picture that a piece of typed data is. Data that is neither PNG
    /// nor JPEG is no picture.
    pub fn try_from(inp: &Data<'a>) -> (r: Result<Picture<'a>, Error>)
        ensures
            match picture_of(inp@) {
                Some(p) => r is Ok && r->Ok_0@ == p,
                None => r == Err::<Picture<'a>, Error>(Error::NotAPicture),
            },
    {
        match *inp {
            Data::Png(data) => Ok(Picture { data, mime_type: MimeType::Png }),
            Data::Jpeg(data) => Ok(Picture { data, mime_type: MimeType::Jpeg }),
            _ => Err(Error::NotAPicture),
        }
    }
}

/// The tag of an MPEG-4 file.
#[derive(Debug)]
pub struct Mp4Tag {
    inner: mp4ameta::Tag,
}

impl View for Mp4Tag {
    type V = Seq<AtomModel>;

    closed spec fn view(&self) -> Seq<AtomModel> {
        tag_atoms(self.inner)
    }
}

impl Mp4Tag {
    /// A tag without atoms.
    pub fn new() -> (r: Mp4Tag)
        ensures
            r@ == Seq::<AtomModel>::empty(),
    {
        Mp4Tag { inner: tag_new() }
    }

    /// The tag that keeps `inner`.
    pub fn from_inner(inner: mp4ameta::Tag) -> (r: Mp4Tag)
        ensures
            r@ == tag_atoms(inner),
    {
        Mp4Tag { inner }
    }

    /// The `mp4ameta::Tag` that the tag keeps.
    pub fn inner(&self) -> (r: &mp4ameta::Tag)
        ensures
            tag_atoms(*r) == self@,
    {
        &self.inner
    }

    /// The `mp4ameta::Tag` that the tag kept.
    pub fn into_inner(self) -> (r: mp4ameta::Tag)
        ensures
            tag_atoms(r) == self@,
    {
        self.inner
    }

    /// The title.
    pub fn title(&self) -> (r: Option<&str>)
        ensures
            opt_str_view(r) == title_of(self@),
    {
        tag_title(&self.inner)
    }

    /// Makes `title` the only title.
    pub fn set_title(&mut self, title: &str)
        ensures
            final(self)@ == with_only(old(self)@, TITLE, DataModel::Utf8(title@)),
    {
        tag_set_title(&mut self.inner, title)
    }

    /// Removes every title.
    pub fn remove_title(&mut self)
        ensures
            final(self)@ == without(old(self)@, TITLE),
    {
        tag_remove_title(&mut self.inner)
    }

    /// The first artist.
    pub fn artist(&self) -> (r: Option<&str>)
        ensures
            opt_str_view(r) == artist_of(self@),
    {
        tag_artist(&self.inner)
    }

    /// Makes `artist` the only artist.
    pub fn set_artist(&mut self, artist: &str)
        ensures
            final(self)@ == with_only(old(self)@, ARTIST, DataModel::Utf8(artist@)),
    {
        tag_set_artist(&mut self.inner, artist)
    }

    /// Adds `artist` after the artists that are there.
    pub fn add_artist(&mut self, artist: &str)
        ensures
            final(self)@ == with_added(old(self)@, ARTIST, DataModel::Utf8(artist@)),
    {
        tag_add_artist(&mut self.inner, artist)
    }

    /// All artists, in order. A tag without artists gives `None`, never an
    /// empty list.
    pub fn artists(&self) -> (r: Option<Vec<&str>>)
        ensures
            opt_strs_view(r) == artists_of(self@),
            r matches Some(v) ==> v@.len() > 0,
    {
        let v = tag_artists(&self.inner);
        if v.len() == 0 {
            None
        } else {
            Some(v)
        }
    }

    /// Removes every artist.
    pub fn remove_artist(&mut self)
        ensures
            final(self)@ == without(old(self)@, ARTIST),
    {
        tag_remove_artists(&mut self.inner)
    }

    /// The year, where the stored text is a number.
    pub fn year(&self) -> (r: Option<i32>)
        ensures
            r == year_of(self@),
    {
        match tag_year(&self.inner) {
            Some(s) => parse_i32(s.as_bytes()),
            None => None,
        }
    }

    /// Stores `year` as decimal text, as the only year.
    pub fn set_year(&mut self, year: i32)
        ensures
            final(self)@ == with_only(old(self)@, YEAR, DataModel::Utf8(year_text(year))),
    {
        let digits = format_i32(year);
        proof {
            lemma_year_text(year);
            lemma_ascii_is_text(digits@);
        }
        // Decimal digits and a sign are ASCII, so they are always text.
        match str_from_utf8(digits.as_slice()) {
            Some(s) => {
                proof {
                    vstd::utf8::encode_utf8_decode_utf8(s@);
                }
                tag_set_year(&mut self.inner, s)
            },
            None => {},
        }
    }

    /// Removes every year.
    pub fn remove_year(&mut self)
        ensures
            final(self)@ == without(old(self)@, YEAR),
    {
        tag_remove_year(&mut self.inner)
    }

    /// The album's title.
    pub fn album_title(&self) -> (r: Option<&str>)
        ensures
            opt_str_view(r) == album_title_of(self@),
    {
        tag_album(&self.inner)
    }

    /// Makes `title` the only title of the album.
    pub fn set_album_title(&mut self, title: &str)
        ensures
            final(self)@ == with_only(old(self)@, ALBUM, DataModel::Utf8(title@)),
    {
        tag_set_album(&mut self.inner, title)
    }

    /// Removes every title of the album.
    pub fn remove_album_title(&mut self)
        ensures
            final(self)@ == without(old(self)@, ALBUM),
    {
        tag_remove_album(&mut self.inner)
    }

    /// The album's artists, in order. A tag without album artists gives
    /// `None`, never an empty list.
    pub fn album_artists(&self) -> (r: Option<Vec<&str>>)
        ensures
            opt_strs_view(r) == album_artists_of(self@),
            r matches Some(v) ==> v@.len() > 0,
    {
        let v = tag_album_artists(&self.inner);
        if v.len() == 0 {
            None
        } else {
            Some(v)
        }
    }

    /// Makes `artists` the only artist of the album.
    pub fn set_album_artists(&mut self, artists: String)
        ensures
            final(self)@ == with_only(old(self)@, ALBUM_ARTIST, DataModel::Utf8(artists@)),
    {
        tag_set_album_artist(&mut self.inner, artists.as_str())
    }

    /// Adds `artist` after the album artists that are there.
    pub fn add_album_artist(&mut self, artist: &str)
        ensures
            final(self)@ == with_added(old(self)@, ALBUM_ARTIST, DataModel::Utf8(artist@)),
    {
        tag_add_album_artist(&mut self.inner, artist)
    }

    /// Removes every artist of the album.
    pub fn remove_album_artists(&mut self)
        ensures
            final(self)@ == without(old(self)@, ALBUM_ARTIST),
    {
        tag_remove_data(&mut self.inner, ALBUM_ARTIST);
        tag_remove_album_artists(&mut self.inner);
        proof {
            lemma_without_twice(old(self)@, ALBUM_ARTIST);
        }
    }

    /// The cover: the first image of the tag.
    pub fn album_cover(&self) -> (r: Option<Picture<'_>>)
        ensures
            opt_picture_view(r) == cover_of(self@),
    {
        match tag_artwork(&self.inner) {
            Some(data) => match Picture::try_from(&data) {
                Ok(p) => Some(p),
                Err(_) => None,
            },
            None => None,
        }
    }

    /// Makes `cover` the only image of the tag. The tag keeps PNG and JPEG
    /// images; a caller with a picture of another type calls
    /// `try_set_album_cover`.
    pub fn set_album_cover(&mut self, cover: Picture<'_>)
        requires
            image_of(cover@) is Some,
        ensures
            final(self)@ == with_cover(old(self)@, image_of(cover@)->Some_0),
    {
        tag_remove_artwork(&mut self.inner);
        match cover.mime_type {
            MimeType::Png => tag_add_artwork(&mut self.inner, Data::Png(cover.data)),
            MimeType::Jpeg => tag_add_artwork(&mut self.inner, Data::Jpeg(cover.data)),
            _ => {},
        }
    }

    /// Makes `cover` the only image of the tag, or refuses a picture that is
    /// neither PNG nor JPEG and leaves the tag as it is.
    pub fn try_set_album_cover(&mut self, cover: Picture<'_>) -> (r: Result<(), Error>)
        ensures
            match image_of(cover@) {
                Some(image) => r is Ok && final(self)@ == with_cover(old(self)@, image),
                None => r == Err::<(), Error>(Error::UnsupportedValue) && final(self)@ == old(
                    self,
                )@,
            },
    {
        match cover.mime_type {
            MimeType::Png | MimeType::Jpeg => {
                self.set_album_cover(cover);
                Ok(())
            },
            _ => Err(Error::UnsupportedValue),
        }
    }

    /// Removes every image.
    pub fn remove_album_cover(&mut self)
        ensures
            final(self)@ == without(old(self)@, ARTWORK),
    {
        tag_remove_artwork(&mut self.inner)
    }

    /// Removes the track's number and the number of tracks together.
    pub fn remove_track(&mut self)
        ensures
            final(self)@ == without(old(self)@, TRACK_NUMBER),
    {
        tag_remove_track(&mut self.inner)
    }

    /// The track's number and the number of tracks.
    pub fn track(&self) -> (r: (Option<u32>, Option<u32>))
        ensures
            r.0 == track_number_of(self@),
            r.1 == total_tracks_of(self@),
    {
        (self.track_number(), self.total_tracks())
    }

    /// The track's number; zero counts as none.
    pub fn track_number(&self) -> (r: Option<u32>)
        ensures
            r == track_number_of(self@),
    {
        match tag_track_number(&self.inner) {
            Some(n) => Some(n as u32),
            None => None,
        }
    }

    /// Sets the track's number. The tag keeps its sixteen low bits.
    pub fn set_track_number(&mut self, track: u32)
        ensures
            final(self)@ == with_pair_value(
                old(self)@,
                TRACK_NUMBER,
                2,
                low16(track),
                new_track_bytes(low16(track), 0),
            ),
    {
        tag_set_track_number(&mut self.inner, truncate16(track))
    }

    /// Removes the track's number and keeps the number of tracks.
    pub fn remove_track_number(&mut self)
        ensures
            final(self)@ == without_number(old(self)@, TRACK_NUMBER),
    {
        tag_remove_track_number(&mut self.inner)
    }

    /// The number of tracks; zero counts as none.
    pub fn total_tracks(&self) -> (r: Option<u32>)
        ensures
            r == total_tracks_of(self@),
    {
        match tag_total_tracks(&self.inner) {
            Some(n) => Some(n as u32),
            None => None,
        }
    }

    /// Sets the number of tracks. The tag keeps its sixteen low bits.
    pub fn set_total_tracks(&mut self, total: u32)
        ensures
            final(self)@ == with_pair_value(
                old(self)@,
                TRACK_NUMBER,
                4,
                low16(total),
                new_track_bytes(0, low16(total)),
            ),
    {
        tag_set_total_tracks(&mut self.inner, truncate16(total))
    }

    /// Removes the number of tracks and keeps the track's number.
    pub fn remove_total_tracks(&mut self)
        ensures
            final(self)@ == with_total_removed(old(self)@, TRACK_NUMBER),
    {
        if holds_total_room(tag_first_bytes(&self.inner, TRACK_NUMBER)) {
            tag_remove_total_tracks(&mut self.inner)
        }
    }

    /// Removes the disc's number and the number of discs together.
    pub fn remove_disc(&mut self)
        ensures
            final(self)@ == without(old(self)@, DISC_NUMBER),
    {
        tag_remove_disc(&mut self.inner)
    }

    /// The disc's number and the number of discs.
    pub fn disc(&self) -> (r: (Option<u32>, Option<u32>))
        ensures
            r.0 == disc_number_of(self@),
            r.1 == total_discs_of(self@),
    {
        (self.disc_number(), self.total_discs())
    }

    /// The disc's number; zero counts as none.
    pub fn disc_number(&self) -> (r: Option<u32>)
        ensures
            r == disc_number_of(self@),
    {
        match tag_disc_number(&self.inner) {
            Some(n) => Some(n as u32),
            None => None,
        }
    }

    /// Sets the disc's number. The tag keeps its sixteen low bits.
    pub fn set_disc_number(&mut self, disc_number: u32)
        ensures
            final(self)@ == with_pair_value(
                old(self)@,
                DISC_NUMBER,
                2,
                low16(disc_number),
                new_disc_bytes(low16(disc_number), 0),
            ),
    {
        tag_set_disc_number(&mut self.inner, truncate16(disc_number))
    }

    /// Removes the disc's number and keeps the number of discs.
    pub fn remove_disc_number(&mut self)
        ensures
            final(self)@ == without_number(old(self)@, DISC_NUMBER),
    {
        tag_remove_disc_number(&mut self.inner)
    }

    /// The number of discs; zero counts as none.
    pub fn total_discs(&self) -> (r: Option<u32>)
        ensures
            r == total_discs_of(self@),
    {
        match tag_total_discs(&self.inner) {
            Some(n) => Some(n as u32),
            None => None,
        }
    }

    /// Sets the number of discs. The tag keeps its sixteen low bits.
    pub fn set_total_discs(&mut self, total_discs: u32)
        ensures
            final(self)@ == with_pair_value(
                old(self)@,
                DISC_NUMBER,
                4,
                low16(total_discs),
                new_disc_bytes(0, low16(total_discs)),
            ),
    {
        tag_set_total_discs(&mut self.inner, truncate16(total_discs))
    }

    /// Removes the number of discs and keeps the disc's number.
    pub fn remove_total_discs(&mut self)
        ensures
            final(self)@ == with_total_removed(old(self)@, DISC_NUMBER),
    {
        if holds_total_room(tag_first_bytes(&self.inner, DISC_NUMBER)) {
            tag_remove_total_discs(&mut self.inner)
        }
    }
}

/// The sixteen low bits of `n`.
fn truncate16(n: u32) -> (r: u16)
    ensures
        r == low16(n),
{
    (n % 65536) as u16
}

/// Whether the total can be set to zero in these bytes, or there is nothing
/// to set: not where they hold a number and end before the total.
fn holds_total_room(bytes: Option<Vec<u8>>) -> (r: bool)
    ensures
        r == match bytes {
            Some(b) => b@.len() >= 4 && !(b@[2] == 0 && b@[3] == 0) ==> b@.len() >= 6,
            None => true,
        },
{
    match bytes {
        Some(b) => !(b.len() >= 4 && !(b[2] == 0 && b[3] == 0)) || b.len() >= 6,
        None => true,
    }
}

/// Dropping the atoms under an identifier twice drops no more than once.
pub proof fn lemma_without_twice(atoms: Seq<AtomModel>, id: u32)
    ensures
        without(without(atoms, id), id) == without(atoms, id),
    decreases atoms.len(),
{
    reveal(Seq::filter);
    let p = crate::mp4_atoms::not_under(id);
    if atoms.len() > 0 {
        lemma_without_twice(atoms.drop_last(), id);
        let rest = atoms.drop_last().filter(p);
        if p(atoms.last()) {
            assert(atoms.filter(p) == rest.push(atoms.last()));
            assert(rest.push(atoms.last()).drop_last() =~= rest);
            assert(rest.push(atoms.last()).filter(p) == rest.filter(p).push(atoms.last()));
        }
    }
}

/// The text of a year is plain ASCII.
pub proof fn lemma_year_text(year: i32)
    ensures
        all_ascii(text_of_i32(year)),
{
    let t = text_of_i32(year);
    if year < 0 {
        let m = (-(year as int)) as nat;
        crate::decimal::lemma_digits_of(m);
        let d = crate::decimal::digits_of(m);
        assert forall|i: int| 0 <= i < t.len() implies #[trigger] t[i] < 128 by {
            if i > 0 {
                assert(t[i] == d[i - 1]);
                assert(crate::decimal::is_digit(d[i - 1]));
            }
        }
    } else {
        crate::decimal::lemma_digits_of(year as nat);
        assert forall|i: int| 0 <= i < t.len() implies #[trigger] t[i] < 128 by {
            assert(crate::decimal::is_digit(t[i]));
        }
    }
}

} // verus!
