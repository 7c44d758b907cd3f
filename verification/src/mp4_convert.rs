//! Snapshots of an MPEG-4 tag, and MPEG-4 tags from snapshots.

use vstd::prelude::*;
use crate::any_tag::{Album, AlbumView, AnyTag, AnyTagView, ToAnyTag};
use crate::mp4_atoms::{
    new_disc_bytes, new_track_bytes, with_only, with_pair_value, with_strings,
    AtomModel, DataModel, ALBUM, ALBUM_ARTIST, ARTIST, DISC_NUMBER, TITLE, TRACK_NUMBER, YEAR,
};
use crate::mp4_tag::{
    album_artists_of, album_title_of, artists_of, cover_of, disc_number_of, low16, title_of,
    total_discs_of, total_tracks_of, track_number_of, year_of, year_text, Mp4Tag,
};
use crate::text::strs_view;

verus! {

/// The snapshot that a sequence of atoms gives. Comments, date and duration
/// are not taken from an MPEG-4 tag.
pub open spec fn snapshot_of(atoms: Seq<AtomModel>) -> AnyTagView {
    AnyTagView {
        title: title_of(atoms),
        artists: artists_of(atoms),
        year: year_of(atoms),
        album: AlbumView {
            title: album_title_of(atoms),
            artists: album_artists_of(atoms),
            cover: cover_of(atoms),
        },
        track_number: track_number_of(atoms),
        total_tracks: total_tracks_of(atoms),
        disc_number: disc_number_of(atoms),
        total_discs: total_discs_of(atoms),
        comments: None,
        date: None,
        duration_ms: None,
    }
}

/// The atoms with a string as the only one under `id`, if there is a string.
pub open spec fn with_text(atoms: Seq<AtomModel>, id: u32, text: Option<Seq<char>>) -> Seq<
    AtomModel,
> {
    match text {
        Some(s) => with_only(atoms, id, DataModel::Utf8(s)),
        None => atoms,
    }
}

/// The atoms with each name appended under `id`, if there are names.
pub open spec fn with_names(atoms: Seq<AtomModel>, id: u32, names: Option<Seq<Seq<char>>>) -> Seq<
    AtomModel,
> {
    match names {
        Some(l) => with_strings(atoms, id, l),
        None => atoms,
    }
}

/// The atoms with a year set, if there is one.
pub open spec fn with_year(atoms: Seq<AtomModel>, year: Option<i32>) -> Seq<AtomModel> {
    match year {
        Some(y) => with_only(atoms, YEAR, DataModel::Utf8(year_text(y))),
        None => atoms,
    }
}

/// The bytes of a new atom for a number and a total under `id`.
pub open spec fn fresh_bytes(id: u32, number: u16, total: u16) -> Seq<u8> {
    if id == DISC_NUMBER {
        new_disc_bytes(number, total)
    } else {
        new_track_bytes(number, total)
    }
}

/// The atoms with a number set under `id`, if there is one.
pub open spec fn with_number(atoms: Seq<AtomModel>, id: u32, number: Option<u32>) -> Seq<
    AtomModel,
> {
    match number {
        Some(n) => with_pair_value(atoms, id, 2, low16(n), fresh_bytes(id, low16(n), 0)),
        None => atoms,
    }
}

/// The atoms with a total set under `id`, if there is one.
pub open spec fn with_total(atoms: Seq<AtomModel>, id: u32, total: Option<u32>) -> Seq<
    AtomModel,
> {
    match total {
        Some(n) => with_pair_value(atoms, id, 4, low16(n), fresh_bytes(id, 0, low16(n))),
        None => atoms,
    }
}

/// The atoms of the tag that a snapshot is turned into. The fields that are
/// present are applied to an empty tag in this order: title, artists, year,
/// album title, album artists, track number, total tracks, disc number,
/// total discs. The cover, comments, date and duration are not applied.
pub open spec fn atoms_from(v: AnyTagView) -> Seq<AtomModel> {
    let a1 = with_text(Seq::<AtomModel>::empty(), TITLE, v.title);
    let a2 = with_names(a1, ARTIST, v.artists);
    let a3 = with_year(a2, v.year);
    let a4 = with_text(a3, ALBUM, v.album.title);
    let a5 = with_names(a4, ALBUM_ARTIST, v.album.artists);
    let a6 = with_number(a5, TRACK_NUMBER, v.track_number);
    let a7 = with_total(a6, TRACK_NUMBER, v.total_tracks);
    let a8 = with_number(a7, DISC_NUMBER, v.disc_number);
    with_total(a8, DISC_NUMBER, v.total_discs)
}

impl ToAnyTag for Mp4Tag {
    open spec fn any_view(&self) -> AnyTagView {
        snapshot_of(self@)
    }

    fn to_anytag(&self) -> (r: AnyTag<'_>) {
        let title = self.title();
        let artists = self.artists();
        let year = self.year();
        let album = Album::new(self.album_title(), self.album_artists(), self.album_cover());
        let (track_number, total_tracks) = self.track();
        let (disc_number, total_discs) = self.disc();
        AnyTag {
            title,
            artists,
            year,
            album,
            track_number,
            total_tracks,
            disc_number,
            total_discs,
            comments: None,
            date: None,
            duration_ms: None,
        }
    }
}

impl Mp4Tag {
    /// Adds each name under the artists, in order.
    fn add_artists(&mut self, names: &Vec<&str>)
        ensures
            final(self)@ == with_strings(old(self)@, ARTIST, strs_view(names@)),
    {
        let ghost l = strs_view(names@);
        let mut i: usize = 0;
        assert(self@ =~= with_strings(old(self)@, ARTIST, l.take(0)));
        while i < names.len()
            invariant
                i <= names.len(),
                l == strs_view(names@),
                self@ == with_strings(old(self)@, ARTIST, l.take(i as int)),
            decreases names.len() - i,
        {
            self.add_artist(names[i]);
            assert(self@ =~= with_strings(old(self)@, ARTIST, l.take(i + 1)));
            i = i + 1;
        }
        assert(l.take(i as int) =~= l);
    }

    /// Adds each name under the album's artists, in order.
    fn add_album_artists(&mut self, names: &Vec<&str>)
        ensures
            final(self)@ == with_strings(old(self)@, ALBUM_ARTIST, strs_view(names@)),
    {
        let ghost l = strs_view(names@);
        let mut i: usize = 0;
        assert(self@ =~= with_strings(old(self)@, ALBUM_ARTIST, l.take(0)));
        while i < names.len()
            invariant
                i <= names.len(),
                l == strs_view(names@),
                self@ == with_strings(old(self)@, ALBUM_ARTIST, l.take(i as int)),
            decreases names.len() - i,
        {
            self.add_album_artist(names[i]);
            assert(self@ =~= with_strings(old(self)@, ALBUM_ARTIST, l.take(i + 1)));
            i = i + 1;
        }
        assert(l.take(i as int) =~= l);
    }

    /// The tag that a snapshot is turned into: a new tag to which the fields
    /// that are present were applied, names one by one.
    pub fn from(inp: AnyTag<'_>) -> (r: Mp4Tag)
        ensures
            r@ == atoms_from(inp@),
    {
        let mut tag = Mp4Tag::new();
        if let Some(v) = inp.title() {
            tag.set_title(v);
        }
        if let Some(names) = inp.artists() {
            tag.add_artists(names);
        }
        if let Some(v) = inp.year() {
            tag.set_year(v);
        }
        if let Some(v) = inp.album_title() {
            tag.set_album_title(v);
        }
        if let Some(names) = inp.album_artists() {
            tag.add_album_artists(names);
        }
        if let Some(v) = inp.track_number() {
            tag.set_track_number(v);
        }
        if let Some(v) = inp.total_tracks() {
            tag.set_total_tracks(v);
        }
        if let Some(v) = inp.disc_number() {
            tag.set_disc_number(v);
        }
        if let Some(v) = inp.total_discs() {
            tag.set_total_discs(v);
        }
        tag
    }
}

} // verus!
