use lofty::{Album, AnyTag, MimeType, Mp4Tag, Picture, RiffTag, ToAnyTag};

fn full_snapshot<'a>() -> AnyTag<'a> {
    AnyTag {
        title: Some("Song"),
        artists: Some(vec!["A", "B"]),
        year: Some(1999),
        album: Album::new(Some("Album"), Some(vec!["X", "Y"]), None),
        track_number: Some(5),
        total_tracks: Some(12),
        disc_number: Some(1),
        total_discs: Some(2),
        comments: None,
        date: None,
        duration_ms: None,
    }
}

#[test]
fn an_empty_snapshot_has_no_fields() {
    let any = AnyTag::new();
    assert_eq!(any.title(), None);
    assert_eq!(any.artists(), None);
    assert_eq!(any.year(), None);
    assert_eq!(any.album_title(), None);
    assert_eq!(any.album_artists(), None);
    assert_eq!(any.album_cover(), None);
    assert_eq!(any.track_number(), None);
    assert_eq!(any.total_tracks(), None);
    assert_eq!(any.disc_number(), None);
    assert_eq!(any.total_discs(), None);
    assert_eq!(any.album(), &Album::new(None, None, None));
}

#[test]
fn a_snapshot_gives_its_fields() {
    let any = full_snapshot();
    assert_eq!(any.title(), Some("Song"));
    assert_eq!(any.artists(), Some(&vec!["A", "B"]));
    assert_eq!(any.year(), Some(1999));
    assert_eq!(any.album_title(), Some("Album"));
    assert_eq!(any.album_artists(), Some(&vec!["X", "Y"]));
    assert_eq!(any.track_number(), Some(5));
    assert_eq!(any.total_tracks(), Some(12));
    assert_eq!(any.disc_number(), Some(1));
    assert_eq!(any.total_discs(), Some(2));
}

#[test]
fn snapshot_of_an_mp4_tag() {
    let mut tag = Mp4Tag::new();
    tag.set_title("Song");
    tag.add_artist("A");
    tag.add_artist("B");
    tag.set_year(1999);
    tag.set_album_title("Album");
    tag.add_album_artist("X");
    tag.set_album_cover(Picture::new(&[1, 2, 3], MimeType::Png));
    tag.set_track_number(5);
    tag.set_total_tracks(12);
    tag.set_disc_number(1);
    let any = AnyTag::from(&tag);
    let expected = AnyTag {
        title: Some("Song"),
        artists: Some(vec!["A", "B"]),
        year: Some(1999),
        album: Album::new(
            Some("Album"),
            Some(vec!["X"]),
            Some(Picture { data: &[1, 2, 3], mime_type: MimeType::Png }),
        ),
        track_number: Some(5),
        total_tracks: Some(12),
        disc_number: Some(1),
        total_discs: None,
        comments: None,
        date: None,
        duration_ms: None,
    };
    assert_eq!(any, expected);
    assert_eq!(tag.to_anytag(), expected);
}

#[test]
fn snapshot_of_an_empty_mp4_tag() {
    let tag = Mp4Tag::new();
    assert_eq!(AnyTag::from(&tag), AnyTag::new());
    assert_eq!(AnyTag::from(&tag).artists(), None);
}

#[test]
fn mp4_tag_from_a_snapshot() {
    let tag = Mp4Tag::from(full_snapshot());
    let idents: Vec<String> = tag.inner().atoms.iter().map(|a| a.ident.to_string()).collect();
    assert_eq!(
        idents,
        vec!["©nam", "©ART", "©ART", "©day", "©alb", "aART", "aART", "trkn", "disk"]
    );
    assert_eq!(tag.title(), Some("Song"));
    assert_eq!(tag.artists(), Some(vec!["A", "B"]));
    assert_eq!(tag.year(), Some(1999));
    assert_eq!(tag.inner().year(), Some("1999"));
    assert_eq!(tag.album_title(), Some("Album"));
    assert_eq!(tag.album_artists(), Some(vec!["X", "Y"]));
    assert_eq!(tag.track(), (Some(5), Some(12)));
    assert_eq!(tag.disc(), (Some(1), Some(2)));
    assert_eq!(tag.album_cover(), None);
}

#[test]
fn mp4_tag_from_an_empty_snapshot_is_empty() {
    let tag = Mp4Tag::from(AnyTag::new());
    assert!(tag.inner().atoms.is_empty());
}

#[test]
fn mp4_tag_does_not_take_the_cover() {
    let mut any = AnyTag::new();
    any.album = Album::new(None, None, Some(Picture::new(&[1], MimeType::Jpeg)));
    any.title = Some("Song");
    let tag = Mp4Tag::from(any);
    assert_eq!(tag.album_cover(), None);
    assert_eq!(tag.title(), Some("Song"));
    assert_eq!(tag.inner().atoms.len(), 1);
}

#[test]
fn mp4_snapshot_is_stable() {
    let first = Mp4Tag::from(full_snapshot());
    let snapshot = AnyTag::from(&first);
    assert_eq!(snapshot, full_snapshot());
    let second = Mp4Tag::from(snapshot.clone());
    assert_eq!(AnyTag::from(&second), snapshot);
}

#[test]
fn mp4_snapshot_of_odd_atoms_is_stable() {
    let mut inner = mp4ameta::Tag::default();
    inner.add_data(mp4ameta::FourCC(*b"\xa9nam"), mp4ameta::Data::Utf16("wide".to_string()));
    inner.set_year("not a year");
    inner.add_data(mp4ameta::FourCC(*b"trkn"), mp4ameta::Data::Reserved(vec![0, 0, 0, 0, 0, 9]));
    inner.add_data(mp4ameta::FourCC(*b"disk"), mp4ameta::Data::Utf8("1/2".to_string()));
    inner.add_data(mp4ameta::FourCC(*b"covr"), mp4ameta::Data::Reserved(vec![1]));
    let tag = Mp4Tag::from_inner(inner);
    let snapshot = tag.to_anytag();
    let mut expected = AnyTag::new();
    expected.title = Some("wide");
    expected.total_tracks = Some(9);
    assert_eq!(snapshot, expected);
    let again = Mp4Tag::from(snapshot.clone());
    assert_eq!(again.to_anytag(), snapshot);
    assert_eq!(again.inner().atoms.len(), 2);
}

#[test]
fn mp4_numbers_beyond_sixteen_bits_are_cut() {
    let mut any = AnyTag::new();
    any.track_number = Some(65536 + 7);
    any.total_discs = Some(65536);
    let tag = Mp4Tag::from(any);
    assert_eq!(tag.track(), (Some(7), None));
    assert_eq!(tag.disc(), (None, None));
}

#[test]
fn snapshot_of_a_riff_tag() {
    let mut tag = RiffTag::new();
    tag.set_title("Song");
    tag.set_artist("Band");
    tag.set_album_title("Album");
    tag.set_date("2021");
    tag.set_track_number(3);
    tag.set_total_tracks(10);
    tag.set_disc_number(2);
    let expected = AnyTag {
        title: Some("Song"),
        artists: Some(vec!["Band"]),
        year: None,
        album: Album::new(Some("Album"), None, None),
        track_number: Some(3),
        total_tracks: Some(10),
        disc_number: Some(2),
        total_discs: Some(2),
        comments: None,
        date: None,
        duration_ms: None,
    };
    assert_eq!(AnyTag::from(&tag), expected);
    assert_eq!(tag.to_anytag(), expected);
}

#[test]
fn riff_tag_without_artist_gives_none() {
    let mut tag = RiffTag::new();
    tag.set_title("Song");
    assert_eq!(AnyTag::from(&tag).artists(), None);
    assert_eq!(AnyTag::from(&tag).album_artists(), None);
    assert_eq!(AnyTag::from(&RiffTag::new()), AnyTag::new());
}

#[test]
fn riff_tag_from_a_snapshot() {
    let tag = RiffTag::from(full_snapshot());
    assert_eq!(tag.title(), Some("Song"));
    assert_eq!(tag.artist_str(), Some("B"));
    assert_eq!(tag.album_title(), Some("Album"));
    assert_eq!(tag.track_number(), Some(5));
    assert_eq!(tag.total_tracks(), Some(12));
    assert_eq!(tag.disc_number(), Some(2));
    assert_eq!(tag.total_discs(), Some(2));
    assert_eq!(tag.date(), None);
    assert_eq!(tag.get_value("ITRK"), Some("5"));
    assert_eq!(tag.get_value("IFRM"), Some("12"));
    assert_eq!(tag.get_value("DISC"), Some("2"));
}

#[test]
fn riff_snapshot_is_stable() {
    let mut tag = RiffTag::new();
    tag.set_title("Song");
    tag.set_artist("Band");
    tag.set_value("ALBU", "old album");
    tag.set_value("IPRT", "4");
    tag.set_value("IFRM", "no number");
    tag.set_disc_number(2);
    tag.set_genre("Pop");
    let snapshot = AnyTag::from(&tag);
    assert_eq!(snapshot.album_title(), Some("old album"));
    assert_eq!(snapshot.track_number(), Some(4));
    assert_eq!(snapshot.total_tracks(), None);
    let again = RiffTag::from(snapshot.clone());
    assert_eq!(AnyTag::from(&again), snapshot);
    assert_eq!(again.get_value("IPRD"), Some("old album"));
    assert_eq!(again.get_value("ITRK"), Some("4"));
    assert_eq!(again.genre(), None);
}

#[test]
fn metadata_moves_from_one_format_to_the_other() {
    let mut riff = RiffTag::new();
    riff.set_title("Song");
    riff.set_artist("Band");
    riff.set_track_number(3);
    let mp4 = Mp4Tag::from(AnyTag::from(&riff));
    assert_eq!(mp4.title(), Some("Song"));
    assert_eq!(mp4.artists(), Some(vec!["Band"]));
    assert_eq!(mp4.track(), (Some(3), None));
    let back = RiffTag::from(AnyTag::from(&mp4));
    assert_eq!(back.title(), Some("Song"));
    assert_eq!(back.artist_str(), Some("Band"));
    assert_eq!(back.track_number(), Some(3));
}
