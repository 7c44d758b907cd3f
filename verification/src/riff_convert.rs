//! Snapshots of a RIFF tag, and RIFF tags from snapshots.
//!
//! An INFO list holds a title, one artist, an album title, the numbers of
//! track and tracks, and one number for discs. A year, album artists and a
//! cover have no place in it: a snapshot never has them, and a tag that is
//! made from a snapshot does not take them.

use vstd::prelude::*;
use vstd::utf8::encode_utf8;
use crate::any_tag::{Album, AlbumView, AnyTag, AnyTagView, ToAnyTag};
use crate::chunk::ChunkView;
use crate::decimal::{digits_of, lemma_u32_round_trip};
use crate::riff_fields::{
    field_bytes, field_number, field_text, first_present, lemma_field_kept, lemma_field_written,
    with_field, Field,
};
use crate::riff_tag::RiffTag;
use crate::store::{distinct, lemma_with_entry};
use crate::text::{lemma_text_of_encoded, strs_view};

verus! {

/// One name as a list, or no list.
pub open spec fn single(name: Option<Seq<char>>) -> Option<Seq<Seq<char>>> {
    match name {
        Some(n) => Some(seq![n]),
        None => None,
    }
}

/// The snapshot that the entries of an INFO list give. The number of discs
/// is the disc's number.
pub open spec fn riff_snapshot(s: Seq<ChunkView>) -> AnyTagView {
    AnyTagView {
        title: field_text(s, Field::Title),
        artists: single(field_text(s, Field::Artist)),
        year: None,
        album: AlbumView {
            title: field_text(s, Field::AlbumTitle),
            artists: None,
            cover: None,
        },
        track_number: field_number(s, Field::TrackNumber),
        total_tracks: field_number(s, Field::TotalTracks),
        disc_number: field_number(s, Field::DiscNumber),
        total_discs: field_number(s, Field::DiscNumber),
        comments: None,
        date: None,
        duration_ms: None,
    }
}

/// The entries with a text written to a field, if there is a text.
pub open spec fn with_text(s: Seq<ChunkView>, f: Field, text: Option<Seq<char>>) -> Seq<
    ChunkView,
> {
    match text {
        Some(t) => with_field(s, f, encode_utf8(t)),
        None => s,
    }
}

/// The entries with each name written to a field, one after another: the
/// last name is the one that stays.
pub open spec fn with_each(s: Seq<ChunkView>, f: Field, names: Seq<Seq<char>>) -> Seq<ChunkView>
    decreases names.len(),
{
    if names.len() == 0 {
        s
    } else {
        with_field(with_each(s, f, names.drop_last()), f, encode_utf8(names.last()))
    }
}

/// The entries with each name written to a field, if there are names.
pub open spec fn with_names(s: Seq<ChunkView>, f: Field, names: Option<Seq<Seq<char>>>) -> Seq<
    ChunkView,
> {
    match names {
        Some(l) => with_each(s, f, l),
        None => s,
    }
}

/// The entries with a number written to a field, if there is a number.
pub open spec fn with_number(s: Seq<ChunkView>, f: Field, n: Option<u32>) -> Seq<ChunkView> {
    match n {
        Some(v) => with_field(s, f, digits_of(v as nat)),
        None => s,
    }
}

/// The entries of the tag that a snapshot is turned into. The fields that
/// are present are applied to an empty tag in this order: title, artists,
/// album title, track number, total tracks, disc number, total discs.
pub open spec fn entries_from(v: AnyTagView) -> Seq<ChunkView> {
    let e1 = with_text(Seq::<ChunkView>::empty(), Field::Title, v.title);
    let e2 = with_names(e1, Field::Artist, v.artists);
    let e3 = with_text(e2, Field::AlbumTitle, v.album.title);
    let e4 = with_number(e3, Field::TrackNumber, v.track_number);
    let e5 = with_number(e4, Field::TotalTracks, v.total_tracks);
    let e6 = with_number(e5, Field::DiscNumber, v.disc_number);
    with_number(e6, Field::DiscNumber, v.total_discs)
}

/// A snapshot that an INFO list can hold in full: at most one artist, the
/// same number for disc and discs, and none of the fields that the list has
/// no place for.
pub open spec fn riff_holds(v: AnyTagView) -> bool {
    &&& v.artists matches Some(l) ==> l.len() == 1
    &&& v.year is None
    &&& v.album.artists is None
    &&& v.album.cover is None
    &&& v.disc_number == v.total_discs
    &&& v.comments is None
    &&& v.date is None
    &&& v.duration_ms is None
}

/// What one write does: the field is read back, the other fields are as
/// they were, and no identifier stands twice.
pub proof fn lemma_write(s: Seq<ChunkView>, f: Field, value: Seq<u8>)
    requires
        distinct(s),
    ensures
        distinct(with_field(s, f, value)),
        field_bytes(with_field(s, f, value), f) == Some(value),
        forall|g: Field| g != f ==> #[trigger] field_bytes(with_field(s, f, value), g) == field_bytes(s, g),
{
    lemma_with_entry(s, f.canonical(), value, f.canonical());
    lemma_field_written(s, f, value);
    assert forall|g: Field| g != f implies #[trigger] field_bytes(with_field(s, f, value), g)
        == field_bytes(s, g) by {
        lemma_field_kept(s, f, value, g);
    }
}

/// What writing names does: the last name is read back, the other fields
/// are as they were.
pub proof fn lemma_write_each(s: Seq<ChunkView>, f: Field, names: Seq<Seq<char>>)
    requires
        distinct(s),
    ensures
        distinct(with_each(s, f, names)),
        names.len() > 0 ==> field_bytes(with_each(s, f, names), f) == Some(
            encode_utf8(names.last()),
        ),
        names.len() == 0 ==> with_each(s, f, names) == s,
        forall|g: Field| g != f ==> #[trigger] field_bytes(with_each(s, f, names), g) == field_bytes(s, g),
    decreases names.len(),
{
    if names.len() > 0 {
        lemma_write_each(s, f, names.drop_last());
        lemma_write(with_each(s, f, names.drop_last()), f, encode_utf8(names.last()));
    }
}

/// An INFO list holds every snapshot that is taken from one.
pub proof fn lemma_riff_snapshot_held(s: Seq<ChunkView>)
    ensures
        riff_holds(riff_snapshot(s)),
        riff_snapshot(s).well_formed(),
{
    let v = riff_snapshot(s);
    if let Some(l) = v.artists {
        assert(l.len() == 1);
        assert(l != Seq::<Seq<char>>::empty());
    }
}

/// A snapshot that an INFO list can hold is taken again, field for field,
/// from the tag that it was turned into.
pub proof fn lemma_riff_round_trip(v: AnyTagView)
    requires
        riff_holds(v),
    ensures
        riff_snapshot(entries_from(v)) == v,
{
    let e0 = Seq::<ChunkView>::empty();
    let e1 = with_text(e0, Field::Title, v.title);
    let e2 = with_names(e1, Field::Artist, v.artists);
    let e3 = with_text(e2, Field::AlbumTitle, v.album.title);
    let e4 = with_number(e3, Field::TrackNumber, v.track_number);
    let e5 = with_number(e4, Field::TotalTracks, v.total_tracks);
    let e6 = with_number(e5, Field::DiscNumber, v.disc_number);
    let e7 = with_number(e6, Field::DiscNumber, v.total_discs);
    assert forall|g: Field| #[trigger] field_bytes(e0, g) is None by {
        reveal_with_fuel(first_present, 4);
    }
    if let Some(t) = v.title {
        lemma_write(e0, Field::Title, encode_utf8(t));
        lemma_text_of_encoded(t);
    }
    if let Some(l) = v.artists {
        lemma_write_each(e1, Field::Artist, l);
        lemma_text_of_encoded(l.last());
        assert(l =~= seq![l.last()]);
    }
    if let Some(t) = v.album.title {
        lemma_write(e2, Field::AlbumTitle, encode_utf8(t));
        lemma_text_of_encoded(t);
    }
    if let Some(n) = v.track_number {
        lemma_write(e3, Field::TrackNumber, digits_of(n as nat));
        lemma_u32_round_trip(n);
    }
    if let Some(n) = v.total_tracks {
        lemma_write(e4, Field::TotalTracks, digits_of(n as nat));
        lemma_u32_round_trip(n);
    }
    if let Some(n) = v.disc_number {
        lemma_write(e5, Field::DiscNumber, digits_of(n as nat));
        lemma_write(e6, Field::DiscNumber, digits_of(n as nat));
        lemma_u32_round_trip(n);
    }
    let w = riff_snapshot(e7);
    assert(field_bytes(e7, Field::Title) == field_bytes(e1, Field::Title));
    assert(field_bytes(e7, Field::Artist) == field_bytes(e2, Field::Artist));
    assert(field_bytes(e7, Field::AlbumTitle) == field_bytes(e3, Field::AlbumTitle));
    assert(field_bytes(e7, Field::TrackNumber) == field_bytes(e4, Field::TrackNumber));
    assert(field_bytes(e7, Field::TotalTracks) == field_bytes(e5, Field::TotalTracks));
    assert(w.title == v.title);
    assert(w.artists == v.artists);
    assert(w.album.title == v.album.title);
    assert(w.track_number == v.track_number);
    assert(w.total_tracks == v.total_tracks);
    assert(w.disc_number == v.disc_number);
}

/// Normalizing is stable: the snapshot of a tag, turned into a new tag and
/// taken again, is the same snapshot, field for field.
pub proof fn lemma_riff_snapshot_stable(s: Seq<ChunkView>)
    ensures
        riff_snapshot(entries_from(riff_snapshot(s))) == riff_snapshot(s),
{
    lemma_riff_snapshot_held(s);
    lemma_riff_round_trip(riff_snapshot(s));
}

impl ToAnyTag for RiffTag {
    open spec fn any_view(&self) -> AnyTagView {
        riff_snapshot(self@)
    }

    fn to_anytag(&self) -> (r: AnyTag<'_>) {
        let title = self.title();
        let artists = match self.artist_str() {
            Some(a) => {
                let mut v: Vec<&str> = Vec::new();
                v.push(a);
                assert(strs_view(v@) =~= seq![a@]);
                Some(v)
            },
            None => None,
        };
        let album = Album::new(self.album_title(), None, None);
        let track_number = self.track_number();
        let total_tracks = self.total_tracks();
        let disc_number = self.disc_number();
        let total_discs = self.total_discs();
        AnyTag {
            title,
            artists,
            year: None,
            album,
            track_number,
            total_tracks,
            disc_number,
            total_discs,
            comments: None,
            date: None,
            duration_ms: None,
        }
    }
}

impl RiffTag {
    /// Adds each name as the artist, in order.
    fn add_artists(&mut self, names: &Vec<&str>)
        ensures
            final(self)@ == with_each(old(self)@, Field::Artist, strs_view(names@)),
    {
        let ghost l = strs_view(names@);
        let mut i: usize = 0;
        assert(l.take(0) =~= Seq::<Seq<char>>::empty());
        while i < names.len()
            invariant
                i <= names.len(),
                l == strs_view(names@),
                self@ == with_each(old(self)@, Field::Artist, l.take(i as int)),
            decreases names.len() - i,
        {
            self.add_artist(names[i]);
            proof {
                let next = l.take(i + 1);
                assert(next.drop_last() =~= l.take(i as int));
                assert(next.last() == names@[i as int]@);
            }
            i = i + 1;
        }
        assert(l.take(i as int) =~= l);
    }

    /// The tag that a snapshot is turned into: a new tag to which the fields
    /// that are present were applied, names one by one.
    pub fn from(inp: AnyTag<'_>) -> (r: RiffTag)
        ensures
            r@ == entries_from(inp@),
    {
        let mut tag = RiffTag::new();
        if let Some(v) = inp.title() {
            tag.set_title(v);
        }
        if let Some(names) = inp.artists() {
            tag.add_artists(names);
        }
        if let Some(v) = inp.album_title() {
            tag.set_album_title(v);
        }
        if let Some(v) = inp.track_number() {
            tag.set_track_number(v);
        }
        if let Some(v) = inp.total_tracks() {
            tag.set_total_tracks(v);
        }
        if let Some(v) = inp.disc_number() {
            tag.set_disc_number(v);
        }
        if let Some(v) = inp.total_discs() {
            tag.set_total_discs(v);
        }
        tag
    }
}

} // verus!
