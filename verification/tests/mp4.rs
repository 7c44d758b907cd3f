use lofty::{Data, Error, MimeType, Mp4Tag, Picture};
use mp4ameta::{FourCC, Tag};

const IMAGE: [u8; 6] = [0x89, 0x50, 0x4e, 0x47, 1, 2];

fn idents(tag: &Mp4Tag) -> Vec<String> {
    tag.inner().atoms.iter().map(|a| a.ident.to_string()).collect()
}

fn with_bytes(ident: &[u8; 4], bytes: &[u8]) -> Mp4Tag {
    let mut inner = Tag::default();
    inner.set_data(FourCC(*ident), mp4ameta::Data::Reserved(bytes.to_vec()));
    Mp4Tag::from_inner(inner)
}

fn bytes_under(tag: &Mp4Tag, ident: &[u8; 4]) -> Option<Vec<u8>> {
    tag.inner().bytes(&FourCC(*ident)).next().cloned()
}

#[test]
fn a_new_mp4_tag_is_empty() {
    let tag = Mp4Tag::new();
    assert!(tag.inner().atoms.is_empty());
    assert_eq!(tag.title(), None);
    assert_eq!(tag.artist(), None);
    assert_eq!(tag.artists(), None);
    assert_eq!(tag.year(), None);
    assert_eq!(tag.album_title(), None);
    assert_eq!(tag.album_artists(), None);
    assert_eq!(tag.album_cover(), None);
    assert_eq!(tag.track(), (None, None));
    assert_eq!(tag.disc(), (None, None));
}

#[test]
fn mp4_title_is_set_read_and_removed() {
    let mut tag = Mp4Tag::new();
    tag.set_title("first");
    tag.set_title("Song");
    assert_eq!(tag.title(), Some("Song"));
    assert_eq!(tag.inner().title(), Some("Song"));
    assert_eq!(idents(&tag), vec!["©nam"]);
    tag.remove_title();
    assert_eq!(tag.title(), None);
    assert!(tag.inner().atoms.is_empty());
}

#[test]
fn mp4_title_is_the_first_string() {
    let mut inner = Tag::default();
    inner.add_data(FourCC(*b"\xa9nam"), mp4ameta::Data::Reserved(vec![1]));
    inner.add_data(FourCC(*b"\xa9nam"), mp4ameta::Data::Utf16("wide".to_string()));
    inner.add_data(FourCC(*b"\xa9nam"), mp4ameta::Data::Utf8("narrow".to_string()));
    let tag = Mp4Tag::from_inner(inner);
    assert_eq!(tag.title(), Some("wide"));
}

#[test]
fn mp4_tag_without_artists_gives_none() {
    let mut tag = Mp4Tag::new();
    tag.set_title("Song");
    assert_eq!(tag.artists(), None);
    assert_eq!(tag.album_artists(), None);
    tag.add_artist("A");
    tag.remove_artist();
    assert_eq!(tag.artists(), None);
    assert_eq!(tag.artist(), None);
}

#[test]
fn mp4_artists_are_added_in_order() {
    let mut tag = Mp4Tag::new();
    tag.add_artist("A");
    tag.set_title("Song");
    tag.add_artist("B");
    assert_eq!(tag.artists(), Some(vec!["A", "B"]));
    assert_eq!(tag.artist(), Some("A"));
    assert_eq!(idents(&tag), vec!["©ART", "©nam", "©ART"]);
    tag.set_artist("C");
    assert_eq!(tag.artists(), Some(vec!["C"]));
    assert_eq!(idents(&tag), vec!["©nam", "©ART"]);
    assert_eq!(tag.title(), Some("Song"));
}

#[test]
fn mp4_year_is_kept_as_decimal_text() {
    let mut tag = Mp4Tag::new();
    tag.set_year(1999);
    assert_eq!(tag.year(), Some(1999));
    assert_eq!(tag.inner().year(), Some("1999"));
    tag.set_year(-44);
    assert_eq!(tag.year(), Some(-44));
    assert_eq!(tag.inner().year(), Some("-44"));
    assert_eq!(idents(&tag), vec!["©day"]);
    tag.set_year(-2147483648);
    assert_eq!(tag.inner().year(), Some("-2147483648"));
    assert_eq!(tag.year(), Some(-2147483648));
    tag.remove_year();
    assert_eq!(tag.year(), None);
}

#[test]
fn mp4_year_that_is_no_number_reads_as_none() {
    let mut inner = Tag::default();
    inner.set_year("2020-01-01");
    let tag = Mp4Tag::from_inner(inner);
    assert_eq!(tag.year(), None);
    let mut inner = Tag::default();
    inner.set_year("+2020");
    assert_eq!(Mp4Tag::from_inner(inner).year(), Some(2020));
}

#[test]
fn mp4_album_title_is_set_read_and_removed() {
    let mut tag = Mp4Tag::new();
    tag.set_album_title("Album");
    assert_eq!(tag.album_title(), Some("Album"));
    assert_eq!(tag.inner().album(), Some("Album"));
    assert_eq!(tag.title(), None);
    tag.remove_album_title();
    assert_eq!(tag.album_title(), None);
}

#[test]
fn mp4_album_artists_are_set_added_and_removed() {
    let mut tag = Mp4Tag::new();
    tag.add_album_artist("X");
    tag.add_album_artist("Y");
    assert_eq!(tag.album_artists(), Some(vec!["X", "Y"]));
    assert_eq!(tag.artists(), None);
    tag.set_album_artists("Z".to_string());
    assert_eq!(tag.album_artists(), Some(vec!["Z"]));
    assert_eq!(idents(&tag), vec!["aART"]);
    tag.set_title("Song");
    tag.remove_album_artists();
    assert_eq!(tag.album_artists(), None);
    assert_eq!(idents(&tag), vec!["©nam"]);
}

#[test]
fn mp4_cover_is_set_read_and_removed() {
    let mut tag = Mp4Tag::new();
    tag.set_album_cover(Picture::new(&IMAGE, MimeType::Png));
    assert_eq!(tag.album_cover(), Some(Picture { data: &IMAGE, mime_type: MimeType::Png }));
    tag.set_album_cover(Picture::new(&[0xff, 0xd8], MimeType::Jpeg));
    assert_eq!(tag.album_cover(), Some(Picture { data: &[0xff, 0xd8], mime_type: MimeType::Jpeg }));
    assert_eq!(idents(&tag), vec!["covr"]);
    assert_eq!(tag.inner().artworks().count(), 1);
    tag.remove_album_cover();
    assert_eq!(tag.album_cover(), None);
    assert!(tag.inner().atoms.is_empty());
}

#[test]
fn mp4_cover_is_the_first_image() {
    let mut inner = Tag::default();
    inner.add_data(FourCC(*b"covr"), mp4ameta::Data::Utf8("no image".to_string()));
    inner.add_artwork(mp4ameta::Data::Jpeg(vec![1, 2]));
    inner.add_artwork(mp4ameta::Data::Png(vec![3]));
    let tag = Mp4Tag::from_inner(inner);
    assert_eq!(tag.album_cover(), Some(Picture { data: &[1, 2], mime_type: MimeType::Jpeg }));
}

#[test]
fn mp4_cover_of_another_type_is_refused() {
    let mut tag = Mp4Tag::new();
    tag.set_title("Song");
    assert_eq!(tag.try_set_album_cover(Picture::new(&IMAGE, MimeType::Png)), Ok(()));
    for mime_type in [MimeType::Tiff, MimeType::Bmp, MimeType::Gif] {
        let cover = Picture::new(&[1, 2, 3], mime_type);
        assert_eq!(tag.try_set_album_cover(cover), Err(Error::UnsupportedValue));
    }
    assert_eq!(tag.album_cover(), Some(Picture { data: &IMAGE, mime_type: MimeType::Png }));
    assert_eq!(idents(&tag), vec!["©nam", "covr"]);
    assert_eq!(tag.try_set_album_cover(Picture::new(&[9], MimeType::Jpeg)), Ok(()));
    assert_eq!(tag.album_cover(), Some(Picture { data: &[9], mime_type: MimeType::Jpeg }));
    assert_eq!(idents(&tag), vec!["©nam", "covr"]);
}

#[test]
fn typed_data_is_a_picture_or_not() {
    assert_eq!(
        Picture::try_from(&Data::Png(&IMAGE)),
        Ok(Picture { data: &IMAGE, mime_type: MimeType::Png })
    );
    assert_eq!(
        Picture::try_from(&Data::Jpeg(&[1])),
        Ok(Picture { data: &[1], mime_type: MimeType::Jpeg })
    );
    assert_eq!(Picture::try_from(&Data::Reserved(&IMAGE)), Err(Error::NotAPicture));
    assert_eq!(Picture::try_from(&Data::BeSigned(&IMAGE)), Err(Error::NotAPicture));
    assert_eq!(Picture::try_from(&Data::Utf8("png")), Err(Error::NotAPicture));
    assert_eq!(Picture::try_from(&Data::Utf16("jpeg")), Err(Error::NotAPicture));
}

#[test]
fn mp4_track_numbers_are_kept_in_one_atom() {
    let mut tag = Mp4Tag::new();
    tag.set_track_number(5);
    assert_eq!(tag.track(), (Some(5), None));
    assert_eq!(bytes_under(&tag, b"trkn"), Some(vec![0, 0, 0, 5, 0, 0, 0, 0]));
    tag.set_total_tracks(12);
    assert_eq!(tag.track_number(), Some(5));
    assert_eq!(tag.total_tracks(), Some(12));
    assert_eq!(bytes_under(&tag, b"trkn"), Some(vec![0, 0, 0, 5, 0, 12, 0, 0]));
    assert_eq!(idents(&tag), vec!["trkn"]);
    tag.set_track_number(0x0102);
    assert_eq!(tag.track(), (Some(0x0102), Some(12)));
    assert_eq!(bytes_under(&tag, b"trkn"), Some(vec![0, 0, 1, 2, 0, 12, 0, 0]));
}

#[test]
fn mp4_total_tracks_alone_makes_a_new_atom() {
    let mut tag = Mp4Tag::new();
    tag.set_total_tracks(300);
    assert_eq!(tag.track(), (None, Some(300)));
    assert_eq!(bytes_under(&tag, b"trkn"), Some(vec![0, 0, 0, 0, 1, 44, 0, 0]));
}

#[test]
fn mp4_numbers_keep_their_sixteen_low_bits() {
    let mut tag = Mp4Tag::new();
    tag.set_track_number(65536 + 3);
    assert_eq!(tag.track_number(), Some(3));
    tag.set_track_number(65535);
    assert_eq!(tag.track_number(), Some(65535));
    tag.set_track_number(65536);
    assert_eq!(tag.track_number(), None);
    tag.set_total_tracks(0x1_ffff);
    assert_eq!(tag.total_tracks(), Some(0xffff));
    tag.set_disc_number(0x2_0001);
    tag.set_total_discs(0x3_0002);
    assert_eq!(tag.disc(), (Some(1), Some(2)));
}

#[test]
fn mp4_zero_counts_as_no_number() {
    let mut tag = Mp4Tag::new();
    tag.set_track_number(0);
    tag.set_disc_number(0);
    assert_eq!(tag.track(), (None, None));
    assert_eq!(tag.disc(), (None, None));
    assert_eq!(idents(&tag), vec!["trkn", "disk"]);
}

#[test]
fn mp4_track_number_is_removed_and_the_total_kept() {
    let mut tag = Mp4Tag::new();
    tag.set_track_number(5);
    tag.set_total_tracks(12);
    tag.remove_track_number();
    assert_eq!(tag.track(), (None, Some(12)));
    tag.remove_track_number();
    assert_eq!(tag.track(), (None, Some(12)));
    tag.set_track_number(6);
    tag.remove_total_tracks();
    assert_eq!(tag.track(), (Some(6), None));
    tag.remove_track_number();
    assert_eq!(tag.track(), (None, None));
    assert!(tag.inner().atoms.is_empty());
}

#[test]
fn mp4_total_tracks_is_removed_and_the_number_kept() {
    let mut tag = Mp4Tag::new();
    tag.set_track_number(5);
    tag.set_total_tracks(12);
    tag.remove_total_tracks();
    assert_eq!(tag.track(), (Some(5), None));
    assert_eq!(bytes_under(&tag, b"trkn"), Some(vec![0, 0, 0, 5, 0, 0, 0, 0]));
    let mut tag = Mp4Tag::new();
    tag.set_total_tracks(12);
    tag.remove_total_tracks();
    assert!(tag.inner().atoms.is_empty());
}

#[test]
fn mp4_remove_track_removes_both() {
    let mut tag = Mp4Tag::new();
    tag.set_title("Song");
    tag.set_track_number(5);
    tag.set_total_tracks(12);
    tag.remove_track();
    assert_eq!(tag.track(), (None, None));
    assert_eq!(idents(&tag), vec!["©nam"]);
}

#[test]
fn mp4_short_track_bytes_are_left_alone() {
    let mut tag = with_bytes(b"trkn", &[0, 0, 0, 5]);
    assert_eq!(tag.track(), (Some(5), None));
    tag.remove_total_tracks();
    assert_eq!(tag.track(), (Some(5), None));
    assert_eq!(bytes_under(&tag, b"trkn"), Some(vec![0, 0, 0, 5]));
    let mut tag = with_bytes(b"trkn", &[0, 0, 0, 5, 9]);
    tag.remove_total_tracks();
    assert_eq!(bytes_under(&tag, b"trkn"), Some(vec![0, 0, 0, 5, 9]));
    let mut tag = with_bytes(b"disk", &[0, 0, 1, 0]);
    tag.remove_total_discs();
    assert_eq!(tag.disc(), (Some(256), None));
    assert_eq!(bytes_under(&tag, b"disk"), Some(vec![0, 0, 1, 0]));
}

#[test]
fn mp4_short_bytes_without_a_number_are_dropped() {
    let mut tag = with_bytes(b"trkn", &[0, 0, 0, 0]);
    tag.remove_total_tracks();
    assert!(tag.inner().atoms.is_empty());
    let mut tag = with_bytes(b"trkn", &[7]);
    assert_eq!(tag.track(), (None, None));
    tag.remove_total_tracks();
    assert!(tag.inner().atoms.is_empty());
    let mut tag = with_bytes(b"disk", &[]);
    tag.remove_total_discs();
    assert!(tag.inner().atoms.is_empty());
}

#[test]
fn mp4_short_bytes_are_filled_up_when_a_number_is_set() {
    let mut tag = with_bytes(b"trkn", &[9]);
    tag.set_track_number(0x0304);
    assert_eq!(bytes_under(&tag, b"trkn"), Some(vec![9, 0, 3, 4]));
    tag.set_total_tracks(2);
    assert_eq!(bytes_under(&tag, b"trkn"), Some(vec![9, 0, 3, 4, 0, 2]));
    assert_eq!(tag.track(), (Some(0x0304), Some(2)));
}

#[test]
fn mp4_numbers_go_to_the_first_plain_bytes() {
    let mut inner = Tag::default();
    inner.add_data(FourCC(*b"trkn"), mp4ameta::Data::Utf8("text".to_string()));
    inner.add_data(FourCC(*b"trkn"), mp4ameta::Data::BeSigned(vec![0, 0, 0, 1, 0, 2]));
    inner.add_data(FourCC(*b"trkn"), mp4ameta::Data::Reserved(vec![0, 0, 0, 3, 0, 4]));
    let mut tag = Mp4Tag::from_inner(inner);
    assert_eq!(tag.track(), (Some(1), Some(2)));
    tag.set_track_number(7);
    assert_eq!(tag.track(), (Some(7), Some(2)));
    assert_eq!(tag.inner().atoms.len(), 3);
    assert_eq!(tag.inner().atoms[1].data, mp4ameta::Data::BeSigned(vec![0, 0, 0, 7, 0, 2]));
    tag.remove_track_number();
    assert_eq!(tag.inner().atoms[1].data, mp4ameta::Data::BeSigned(vec![0, 0, 0, 0, 0, 2]));
    assert_eq!(tag.inner().atoms[2].data, mp4ameta::Data::Reserved(vec![0, 0, 0, 3, 0, 4]));
}

#[test]
fn mp4_disc_numbers_are_kept_in_one_atom() {
    let mut tag = Mp4Tag::new();
    tag.set_disc_number(1);
    assert_eq!(bytes_under(&tag, b"disk"), Some(vec![0, 0, 0, 1, 0, 0]));
    tag.set_total_discs(2);
    assert_eq!(tag.disc_number(), Some(1));
    assert_eq!(tag.total_discs(), Some(2));
    assert_eq!(bytes_under(&tag, b"disk"), Some(vec![0, 0, 0, 1, 0, 2]));
    tag.remove_disc_number();
    assert_eq!(tag.disc(), (None, Some(2)));
    tag.set_disc_number(3);
    tag.remove_total_discs();
    assert_eq!(tag.disc(), (Some(3), None));
    tag.set_total_discs(4);
    tag.remove_disc();
    assert_eq!(tag.disc(), (None, None));
    assert!(tag.inner().atoms.is_empty());
    tag.set_total_discs(5);
    assert_eq!(bytes_under(&tag, b"disk"), Some(vec![0, 0, 0, 0, 0, 5]));
}

#[test]
fn mp4_inner_tag_is_kept() {
    let mut inner = Tag::default();
    inner.set_title("Song");
    inner.set_bpm(120);
    let mut tag = Mp4Tag::from_inner(inner);
    tag.set_artist("Band");
    let inner = tag.into_inner();
    assert_eq!(inner.title(), Some("Song"));
    assert_eq!(inner.artist(), Some("Band"));
    assert_eq!(inner.bpm(), Some(120));
}
