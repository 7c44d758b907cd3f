//! The calls into `mp4ameta`.
//!
//! `mp4ameta::Tag` keeps its atoms in a vector. `tag_atoms` names that
//! vector, and every function here states what one method of `Tag` reads
//! from it or does to it. Verus takes these statements on trust: they were
//! written from the source of `mp4ameta` 0.9.1 and are not proved.

use vstd::prelude::*;
use crate::mp4_atoms::{
    first, first_bytes, images_of, new_disc_bytes, new_track_bytes, opt_data_view, opt_vec_view,
    pair_value, strings_of, total_removable, with_added, with_added_image, with_only,
    with_pair_value, without, without_number, without_total, AtomModel, Data, DataModel, ALBUM,
    ALBUM_ARTIST, ARTIST, ARTWORK, DISC_NUMBER, TITLE, TRACK_NUMBER, YEAR,
};
use crate::text::{opt_str_view, strs_view};

verus! {

#[verifier::external_type_specification]
#[verifier::external_body]
pub struct ExTag(mp4ameta::Tag);

/// The atoms of a tag (its field `atoms`), in order.
pub uninterp spec fn tag_atoms(tag: mp4ameta::Tag) -> Seq<AtomModel>;

/// `Tag::default`: a tag without atoms.
#[verifier::external_body]
pub(crate) fn tag_new() -> (tag: mp4ameta::Tag)
    ensures
        tag_atoms(tag) == Seq::<AtomModel>::empty(),
{
    mp4ameta::Tag::default()
}

/// `Tag::title`: the first string under `©nam`.
#[verifier::external_body]
pub(crate) fn tag_title(tag: &mp4ameta::Tag) -> (r: Option<&str>)
    ensures
        opt_str_view(r) == first(strings_of(tag_atoms(*tag), TITLE)),
{
    tag.title()
}

/// `Tag::set_title`: the UTF-8 string becomes the only atom under `©nam`.
#[verifier::external_body]
pub(crate) fn tag_set_title(tag: &mut mp4ameta::Tag, title: &str)
    ensures
        tag_atoms(*final(tag)) == with_only(tag_atoms(*old(tag)), TITLE, DataModel::Utf8(title@)),
{
    tag.set_title(title)
}

/// `Tag::remove_title`: all atoms under `©nam` are dropped.
#[verifier::external_body]
pub(crate) fn tag_remove_title(tag: &mut mp4ameta::Tag)
    ensures
        tag_atoms(*final(tag)) == without(tag_atoms(*old(tag)), TITLE),
{
    tag.remove_title()
}

/// `Tag::artist`: the first string under `©ART`.
#[verifier::external_body]
pub(crate) fn tag_artist(tag: &mp4ameta::Tag) -> (r: Option<&str>)
    ensures
        opt_str_view(r) == first(strings_of(tag_atoms(*tag), ARTIST)),
{
    tag.artist()
}

/// `Tag::artists`, collected: all strings under `©ART`, in order.
#[verifier::external_body]
pub(crate) fn tag_artists(tag: &mp4ameta::Tag) -> (r: Vec<&str>)
    ensures
        strs_view(r@) == strings_of(tag_atoms(*tag), ARTIST),
{
    tag.artists().collect()
}

/// `Tag::set_artist`: the UTF-8 string becomes the only atom under `©ART`.
#[verifier::external_body]
pub(crate) fn tag_set_artist(tag: &mut mp4ameta::Tag, artist: &str)
    ensures
        tag_atoms(*final(tag)) == with_only(
            tag_atoms(*old(tag)),
            ARTIST,
            DataModel::Utf8(artist@),
        ),
{
    tag.set_artist(artist)
}

/// `Tag::add_artist`: the UTF-8 string is appended under `©ART`.
#[verifier::external_body]
pub(crate) fn tag_add_artist(tag: &mut mp4ameta::Tag, artist: &str)
    ensures
        tag_atoms(*final(tag)) == with_added(
            tag_atoms(*old(tag)),
            ARTIST,
            DataModel::Utf8(artist@),
        ),
{
    tag.add_artist(artist)
}

/// `Tag::remove_artists`: all atoms under `©ART` are dropped.
#[verifier::external_body]
pub(crate) fn tag_remove_artists(tag: &mut mp4ameta::Tag)
    ensures
        tag_atoms(*final(tag)) == without(tag_atoms(*old(tag)), ARTIST),
{
    tag.remove_artists()
}

/// `Tag::year`: the first string under `©day`.
#[verifier::external_body]
pub(crate) fn tag_year(tag: &mp4ameta::Tag) -> (r: Option<&str>)
    ensures
        opt_str_view(r) == first(strings_of(tag_atoms(*tag), YEAR)),
{
    tag.year()
}

/// `Tag::set_year`: the UTF-8 string becomes the only atom under `©day`.
#[verifier::external_body]
pub(crate) fn tag_set_year(tag: &mut mp4ameta::Tag, year: &str)
    ensures
        tag_atoms(*final(tag)) == with_only(tag_atoms(*old(tag)), YEAR, DataModel::Utf8(year@)),
{
    tag.set_year(year)
}

/// `Tag::remove_year`: all atoms under `©day` are dropped.
#[verifier::external_body]
pub(crate) fn tag_remove_year(tag: &mut mp4ameta::Tag)
    ensures
        tag_atoms(*final(tag)) == without(tag_atoms(*old(tag)), YEAR),
{
    tag.remove_year()
}

/// `Tag::album`: the first string under `©alb`.
#[verifier::external_body]
pub(crate) fn tag_album(tag: &mp4ameta::Tag) -> (r: Option<&str>)
    ensures
        opt_str_view(r) == first(strings_of(tag_atoms(*tag), ALBUM)),
{
    tag.album()
}

/// `Tag::set_album`: the UTF-8 string becomes the only atom under `©alb`.
#[verifier::external_body]
pub(crate) fn tag_set_album(tag: &mut mp4ameta::Tag, album: &str)
    ensures
        tag_atoms(*final(tag)) == with_only(tag_atoms(*old(tag)), ALBUM, DataModel::Utf8(album@)),
{
    tag.set_album(album)
}

/// `Tag::remove_album`: all atoms under `©alb` are dropped.
#[verifier::external_body]
pub(crate) fn tag_remove_album(tag: &mut mp4ameta::Tag)
    ensures
        tag_atoms(*final(tag)) == without(tag_atoms(*old(tag)), ALBUM),
{
    tag.remove_album()
}

/// `Tag::album_artists`, collected: all strings under `aART`, in order.
#[verifier::external_body]
pub(crate) fn tag_album_artists(tag: &mp4ameta::Tag) -> (r: Vec<&str>)
    ensures
        strs_view(r@) == strings_of(tag_atoms(*tag), ALBUM_ARTIST),
{
    tag.album_artists().collect()
}

/// `Tag::set_album_artist`: the UTF-8 string becomes the only atom under
/// `aART`.
#[verifier::external_body]
pub(crate) fn tag_set_album_artist(tag: &mut mp4ameta::Tag, artist: &str)
    ensures
        tag_atoms(*final(tag)) == with_only(
            tag_atoms(*old(tag)),
            ALBUM_ARTIST,
            DataModel::Utf8(artist@),
        ),
{
    tag.set_album_artist(artist)
}

/// `Tag::add_album_artist`: the UTF-8 string is appended under `aART`.
#[verifier::external_body]
pub(crate) fn tag_add_album_artist(tag: &mut mp4ameta::Tag, artist: &str)
    ensures
        tag_atoms(*final(tag)) == with_added(
            tag_atoms(*old(tag)),
            ALBUM_ARTIST,
            DataModel::Utf8(artist@),
        ),
{
    tag.add_album_artist(artist)
}

/// `Tag::remove_album_artists`: all atoms under `aART` are dropped.
#[verifier::external_body]
pub(crate) fn tag_remove_album_artists(tag: &mut mp4ameta::Tag)
    ensures
        tag_atoms(*final(tag)) == without(tag_atoms(*old(tag)), ALBUM_ARTIST),
{
    tag.remove_album_artists()
}

/// `Tag::remove_data` with a four-character code: all atoms under that
/// code are dropped.
#[verifier::external_body]
pub(crate) fn tag_remove_data(tag: &mut mp4ameta::Tag, ident: u32)
    ensures
        tag_atoms(*final(tag)) == without(tag_atoms(*old(tag)), ident),
{
    tag.remove_data(&mp4ameta::FourCC(ident.to_be_bytes()))
}

/// `Tag::bytes` with a four-character code, first item, copied: the first
/// plain bytes under that code.
#[verifier::external_body]
pub(crate) fn tag_first_bytes(tag: &mp4ameta::Tag, ident: u32) -> (r: Option<Vec<u8>>)
    ensures
        opt_vec_view(r) == first_bytes(tag_atoms(*tag), ident),
{
    tag.bytes(&mp4ameta::FourCC(ident.to_be_bytes())).next().cloned()
}

/// `Tag::artwork`: the first image under `covr`.
#[verifier::external_body]
pub(crate) fn tag_artwork(tag: &mp4ameta::Tag) -> (r: Option<Data<'_>>)
    ensures
        opt_data_view(r) == first(images_of(tag_atoms(*tag), ARTWORK)),
{
    match tag.artwork()? {
        mp4ameta::Data::Reserved(v) => Some(Data::Reserved(v)),
        mp4ameta::Data::Utf8(s) => Some(Data::Utf8(s)),
        mp4ameta::Data::Utf16(s) => Some(Data::Utf16(s)),
        mp4ameta::Data::Jpeg(v) => Some(Data::Jpeg(v)),
        mp4ameta::Data::Png(v) => Some(Data::Png(v)),
        mp4ameta::Data::BeSigned(v) => Some(Data::BeSigned(v)),
    }
}

/// `Tag::add_artwork`: an image is appended under `covr`; other data is
/// not added.
#[verifier::external_body]
pub(crate) fn tag_add_artwork(tag: &mut mp4ameta::Tag, image: Data<'_>)
    ensures
        tag_atoms(*final(tag)) == with_added_image(tag_atoms(*old(tag)), ARTWORK, image@),
{
    tag.add_artwork(
        match image {
            Data::Reserved(v) => mp4ameta::Data::Reserved(v.to_vec()),
            Data::Utf8(s) => mp4ameta::Data::Utf8(s.to_owned()),
            Data::Utf16(s) => mp4ameta::Data::Utf16(s.to_owned()),
            Data::Jpeg(v) => mp4ameta::Data::Jpeg(v.to_vec()),
            Data::Png(v) => mp4ameta::Data::Png(v.to_vec()),
            Data::BeSigned(v) => mp4ameta::Data::BeSigned(v.to_vec()),
        },
    )
}

/// `Tag::remove_artwork`: all atoms under `covr` are dropped.
#[verifier::external_body]
pub(crate) fn tag_remove_artwork(tag: &mut mp4ameta::Tag)
    ensures
        tag_atoms(*final(tag)) == without(tag_atoms(*old(tag)), ARTWORK),
{
    tag.remove_artwork()
}

/// `Tag::track_number`: the number in the first plain bytes under `trkn`.
#[verifier::external_body]
pub(crate) fn tag_track_number(tag: &mp4ameta::Tag) -> (r: Option<u16>)
    ensures
        r == pair_value(tag_atoms(*tag), TRACK_NUMBER, 2),
{
    tag.track_number()
}

/// `Tag::total_tracks`: the total in the first plain bytes under `trkn`.
#[verifier::external_body]
pub(crate) fn tag_total_tracks(tag: &mp4ameta::Tag) -> (r: Option<u16>)
    ensures
        r == pair_value(tag_atoms(*tag), TRACK_NUMBER, 4),
{
    tag.total_tracks()
}

/// `Tag::set_track_number`: the number is written into the first plain
/// bytes under `trkn`, or else a new atom with total zero replaces all atoms
/// under `trkn`.
#[verifier::external_body]
pub(crate) fn tag_set_track_number(tag: &mut mp4ameta::Tag, number: u16)
    ensures
        tag_atoms(*final(tag)) == with_pair_value(
            tag_atoms(*old(tag)),
            TRACK_NUMBER,
            2,
            number,
            new_track_bytes(number, 0),
        ),
{
    tag.set_track_number(number)
}

/// `Tag::set_total_tracks`: the total is written into the first plain bytes
/// under `trkn`, or else a new atom with number zero replaces all atoms
/// under `trkn`.
#[verifier::external_body]
pub(crate) fn tag_set_total_tracks(tag: &mut mp4ameta::Tag, total: u16)
    ensures
        tag_atoms(*final(tag)) == with_pair_value(
            tag_atoms(*old(tag)),
            TRACK_NUMBER,
            4,
            total,
            new_track_bytes(0, total),
        ),
{
    tag.set_total_tracks(total)
}

/// `Tag::remove_track`: all atoms under `trkn` are dropped.
#[verifier::external_body]
pub(crate) fn tag_remove_track(tag: &mut mp4ameta::Tag)
    ensures
        tag_atoms(*final(tag)) == without(tag_atoms(*old(tag)), TRACK_NUMBER),
{
    tag.remove_track()
}

/// `Tag::remove_track_number`: the number is set to zero where a total is
/// held, and else all atoms under `trkn` are dropped.
#[verifier::external_body]
pub(crate) fn tag_remove_track_number(tag: &mut mp4ameta::Tag)
    ensures
        tag_atoms(*final(tag)) == without_number(tag_atoms(*old(tag)), TRACK_NUMBER),
{
    tag.remove_track_number()
}

/// `Tag::remove_total_tracks`: the total is set to zero where a number is
/// held, and else all atoms under `trkn` are dropped. The method writes the
/// total's two bytes without looking at the length, so bytes that hold a
/// number and end before the total are left out.
#[verifier::external_body]
pub(crate) fn tag_remove_total_tracks(tag: &mut mp4ameta::Tag)
    requires
        total_removable(tag_atoms(*old(tag)), TRACK_NUMBER),
    ensures
        tag_atoms(*final(tag)) == without_total(tag_atoms(*old(tag)), TRACK_NUMBER),
{
    tag.remove_total_tracks()
}

/// `Tag::disc_number`: the number in the first plain bytes under `disk`.
#[verifier::external_body]
pub(crate) fn tag_disc_number(tag: &mp4ameta::Tag) -> (r: Option<u16>)
    ensures
        r == pair_value(tag_atoms(*tag), DISC_NUMBER, 2),
{
    tag.disc_number()
}

/// `Tag::total_discs`: the total in the first plain bytes under `disk`.
#[verifier::external_body]
pub(crate) fn tag_total_discs(tag: &mp4ameta::Tag) -> (r: Option<u16>)
    ensures
        r == pair_value(tag_atoms(*tag), DISC_NUMBER, 4),
{
    tag.total_discs()
}

/// `Tag::set_disc_number`: the number is written into the first plain bytes
/// under `disk`, or else a new atom with total zero replaces all atoms under
/// `disk`.
#[verifier::external_body]
pub(crate) fn tag_set_disc_number(tag: &mut mp4ameta::Tag, number: u16)
    ensures
        tag_atoms(*final(tag)) == with_pair_value(
            tag_atoms(*old(tag)),
            DISC_NUMBER,
            2,
            number,
            new_disc_bytes(number, 0),
        ),
{
    tag.set_disc_number(number)
}

/// `Tag::set_total_discs`: the total is written into the first plain bytes
/// under `disk`, or else a new atom with number zero replaces all atoms
/// under `disk`.
#[verifier::external_body]
pub(crate) fn tag_set_total_discs(tag: &mut mp4ameta::Tag, total: u16)
    ensures
        tag_atoms(*final(tag)) == with_pair_value(
            tag_atoms(*old(tag)),
            DISC_NUMBER,
            4,
            total,
            new_disc_bytes(0, total),
        ),
{
    tag.set_total_discs(total)
}

/// `Tag::remove_disc`: all atoms under `disk` are dropped.
#[verifier::external_body]
pub(crate) fn tag_remove_disc(tag: &mut mp4ameta::Tag)
    ensures
        tag_atoms(*final(tag)) == without(tag_atoms(*old(tag)), DISC_NUMBER),
{
    tag.remove_disc()
}

/// `Tag::remove_disc_number`: the number is set to zero where a total is
/// held, and else all atoms under `disk` are dropped.
#[verifier::external_body]
pub(crate) fn tag_remove_disc_number(tag: &mut mp4ameta::Tag)
    ensures
        tag_atoms(*final(tag)) == without_number(tag_atoms(*old(tag)), DISC_NUMBER),
{
    tag.remove_disc_number()
}

/// `Tag::remove_total_discs`: the total is set to zero where a number is
/// held, and else all atoms under `disk` are dropped. The method writes the
/// total's two bytes without looking at the length, so bytes that hold a
/// number and end before the total are left out.
#[verifier::external_body]
pub(crate) fn tag_remove_total_discs(tag: &mut mp4ameta::Tag)
    requires
        total_removable(tag_atoms(*old(tag)), DISC_NUMBER),
    ensures
        tag_atoms(*final(tag)) == without_total(tag_atoms(*old(tag)), DISC_NUMBER),
{
    tag.remove_total_discs()
}

} // verus!
