//! The normalized tag: a snapshot of the recognized fields that does not
//! depend on any one format.
//!
//! A snapshot is taken from a tag of some format and can be turned into a
//! tag of any format. A field that is `None` is absent from the source, or
//! the source's format cannot hold it. A list of names is never present and
//! empty at once.

use vstd::prelude::*;
use crate::picture::{opt_picture_view, Picture, PictureView};
use crate::text::{opt_str_view, opt_strs_view};

verus! {

/// The album that a track belongs to.
#[derive(Clone, Debug, PartialEq, Eq)]
pub struct Album<'a> {
    pub title: Option<&'a str>,
    pub artists: Option<Vec<&'a str>>,
    pub cover: Option<Picture<'a>>,
}

/// What an `Album` holds.
pub struct AlbumView {
    pub title: Option<Seq<char>>,
    pub artists: Option<Seq<Seq<char>>>,
    pub cover: Option<PictureView>,
}

impl<'a> View for Album<'a> {
    type V = AlbumView;

    open spec fn view(&self) -> AlbumView {
        AlbumView {
            title: opt_str_view(self.title),
            artists: opt_strs_view(self.artists),
            cover: opt_picture_view(self.cover),
        }
    }
}

impl<'a> Album<'a> {
    /// An album with the given title, artists and cover.
    pub fn new(
        title: Option<&'a str>,
        artists: Option<Vec<&'a str>>,
        cover: Option<Picture<'a>>,
    ) -> (r: Album<'a>)
        ensures
            r.title == title,
            r.artists == artists,
            r.cover == cover,
    {
        Album { title, artists, cover }
    }
}

/// A snapshot of all recognized fields of a tag.
#[derive(Clone, Debug, PartialEq, Eq)]
pub struct AnyTag<'a> {
    pub title: Option<&'a str>,
    pub artists: Option<Vec<&'a str>>,
    pub year: Option<i32>,
    pub album: Album<'a>,
    pub track_number: Option<u32>,
    pub total_tracks: Option<u32>,
    pub disc_number: Option<u32>,
    pub total_discs: Option<u32>,
    pub comments: Option<Vec<&'a str>>,
    pub date: Option<&'a str>,
    pub duration_ms: Option<u32>,
}

/// What an `AnyTag` holds.
pub struct AnyTagView {
    pub title: Option<Seq<char>>,
    pub artists: Option<Seq<Seq<char>>>,
    pub year: Option<i32>,
    pub album: AlbumView,
    pub track_number: Option<u32>,
    pub total_tracks: Option<u32>,
    pub disc_number: Option<u32>,
    pub total_discs: Option<u32>,
    pub comments: Option<Seq<Seq<char>>>,
    pub date: Option<Seq<char>>,
    pub duration_ms: Option<u32>,
}

impl AnyTagView {
    /// No list of names is present and empty at once.
    pub open spec fn well_formed(self) -> bool {
        &&& self.artists != Some(Seq::<Seq<char>>::empty())
        &&& self.album.artists != Some(Seq::<Seq<char>>::empty())
    }
}

impl<'a> View for AnyTag<'a> {
    type V = AnyTagView;

    open spec fn view(&self) -> AnyTagView {
        AnyTagView {
            title: opt_str_view(self.title),
            artists: opt_strs_view(self.artists),
            year: self.year,
            album: self.album@,
            track_number: self.track_number,
            total_tracks: self.total_tracks,
            disc_number: self.disc_number,
            total_discs: self.total_discs,
            comments: opt_strs_view(self.comments),
            date: opt_str_view(self.date),
            duration_ms: self.duration_ms,
        }
    }
}

impl<'a> AnyTag<'a> {
    /// A snapshot in which every field is absent.
    pub fn new() -> (r: AnyTag<'a>)
        ensures
            r.title is None,
            r.artists is None,
            r.year is None,
            r.album.title is None,
            r.album.artists is None,
            r.album.cover is None,
            r.track_number is None,
            r.total_tracks is None,
            r.disc_number is None,
            r.total_discs is None,
            r.comments is None,
            r.date is None,
            r.duration_ms is None,
    {
        AnyTag {
            title: None,
            artists: None,
            year: None,
            album: Album { title: None, artists: None, cover: None },
            track_number: None,
            total_tracks: None,
            disc_number: None,
            total_discs: None,
            comments: None,
            date: None,
            duration_ms: None,
        }
    }

    /// The title.
    pub fn title(&self) -> (r: Option<&'a str>)
        ensures
            r == self.title,
    {
        self.title
    }

    /// The artists, in order.
    pub fn artists(&self) -> (r: Option<&Vec<&'a str>>)
        ensures
            r is Some <==> self.artists is Some,
            r matches Some(v) ==> self.artists == Some(*v),
    {
        self.artists.as_ref()
    }

    /// The year.
    pub fn year(&self) -> (r: Option<i32>)
        ensures
            r == self.year,
    {
        self.year
    }

    /// The album.
    pub fn album(&self) -> (r: &Album<'a>)
        ensures
            *r == self.album,
    {
        &self.album
    }

    /// The album's title.
    pub fn album_title(&self) -> (r: Option<&'a str>)
        ensures
            r == self.album.title,
    {
        self.album.title
    }

    /// The album's artists, in order.
    pub fn album_artists(&self) -> (r: Option<&Vec<&'a str>>)
        ensures
            r is Some <==> self.album.artists is Some,
            r matches Some(v) ==> self.album.artists == Some(*v),
    {
        self.album.artists.as_ref()
    }

    /// The album's cover.
    pub fn album_cover(&self) -> (r: Option<Picture<'a>>)
        ensures
            r == self.album.cover,
    {
        self.album.cover
    }

    /// The number of the track.
    pub fn track_number(&self) -> (r: Option<u32>)
        ensures
            r == self.track_number,
    {
        self.track_number
    }

    /// The number of tracks of the album.
    pub fn total_tracks(&self) -> (r: Option<u32>)
        ensures
            r == self.total_tracks,
    {
        self.total_tracks
    }

    /// The number of the disc.
    pub fn disc_number(&self) -> (r: Option<u32>)
        ensures
            r == self.disc_number,
    {
        self.disc_number
    }

    /// The number of discs of the album.
    pub fn total_discs(&self) -> (r: Option<u32>)
        ensures
            r == self.total_discs,
    {
        self.total_discs
    }
}

/// A tag of some format, seen through the normalized fields.
pub trait ToAnyTag {
    /// The snapshot that the tag gives.
    spec fn any_view(&self) -> AnyTagView;

    /// Takes a snapshot of all recognized fields. The snapshot borrows its
    /// text and its cover from the tag.
    fn to_anytag(&self) -> (r: AnyTag<'_>)
        ensures
            r@ == self.any_view(),
    ;
}

impl<'a> AnyTag<'a> {
    /// The snapshot of a tag of any format.
    pub fn from<T: ToAnyTag>(inp: &'a T) -> (r: AnyTag<'a>)
        ensures
            r@ == inp.any_view(),
    {
        inp.to_anytag()
    }
}

} // verus!
