use lofty::chunk::{parse, parse_chunks, serialize, serialize_chunks};
use lofty::{Chunk, Container, Error, Field, RiffTag, TagStore};

fn chunk(id: &[u8; 4], data: &[u8]) -> Chunk {
    Chunk { id: *id, data: data.to_vec() }
}

fn info_list(entries: &[(&[u8; 4], &[u8])]) -> Chunk {
    let chunks: Vec<Chunk> = entries.iter().map(|(id, data)| chunk(id, data)).collect();
    let mut data = b"INFO".to_vec();
    data.extend_from_slice(&serialize_chunks(&chunks).unwrap());
    Chunk { id: *b"LIST", data }
}

fn wave(chunks: Vec<Chunk>) -> Vec<u8> {
    serialize(&Container { form: *b"WAVE", chunks }).unwrap()
}

fn entries_of(stream: &[u8]) -> Vec<Chunk> {
    let container = parse(stream).unwrap();
    let list = container
        .chunks
        .iter()
        .find(|c| c.id == *b"LIST" && c.data.starts_with(b"INFO"))
        .unwrap();
    parse_chunks(&list.data[4..]).unwrap()
}

fn count(entries: &[Chunk], id: &[u8; 4]) -> usize {
    entries.iter().filter(|c| c.id == *id).count()
}

#[test]
fn fields_are_read_from_an_info_list() {
    let stream = wave(vec![
        chunk(b"fmt ", &[0; 16]),
        info_list(&[(b"INAM", b"Song"), (b"IART", b"Band"), (b"ITRK", b"3")]),
        chunk(b"data", &[1, 2, 3]),
    ]);
    let mut tag = RiffTag::read_from(&stream).unwrap();
    assert_eq!(tag.title(), Some("Song"));
    assert_eq!(tag.artist_str(), Some("Band"));
    assert_eq!(tag.track_number(), Some(3));
    tag.remove_title();
    assert_eq!(tag.title(), None);
    let out = tag.write_to(&stream).unwrap();
    let entries = entries_of(&out);
    assert_eq!(count(&entries, b"INAM"), 0);
    assert_eq!(entries, vec![chunk(b"IART", b"Band"), chunk(b"ITRK", b"3")]);
}

#[test]
fn track_numbers_survive_writing_and_reading() {
    let mut tag = RiffTag::new();
    tag.set_track_number(5);
    tag.set_total_tracks(12);
    let out = tag.serialize().unwrap();
    let back = RiffTag::read_from(&out).unwrap();
    assert_eq!(back.track_number(), Some(5));
    assert_eq!(back.total_tracks(), Some(12));
    let entries = entries_of(&out);
    assert_eq!(count(&entries, b"ITRK"), 1);
    assert_eq!(count(&entries, b"IFRM"), 1);
    assert_eq!(entries, vec![chunk(b"ITRK", b"5"), chunk(b"IFRM", b"12")]);
}

#[test]
fn setting_a_number_twice_leaves_one_chunk() {
    let mut tag = RiffTag::new();
    tag.set_track_number(5);
    tag.set_total_tracks(12);
    tag.set_track_number(6);
    let entries = entries_of(&tag.serialize().unwrap());
    assert_eq!(entries, vec![chunk(b"ITRK", b"6"), chunk(b"IFRM", b"12")]);
}

#[test]
fn a_new_tag_is_empty() {
    let tag = RiffTag::new();
    assert_eq!(tag.title(), None);
    assert_eq!(tag.artist_str(), None);
    assert_eq!(tag.date(), None);
    assert_eq!(tag.copyright(), None);
    assert_eq!(tag.genre(), None);
    assert_eq!(tag.album_title(), None);
    assert_eq!(tag.track_number(), None);
    assert_eq!(tag.total_tracks(), None);
    assert_eq!(tag.disc_number(), None);
    assert_eq!(tag.total_discs(), None);
}

#[test]
fn a_new_tag_is_written_as_an_empty_list() {
    let out = RiffTag::new().serialize().unwrap();
    let mut expected = b"RIFF".to_vec();
    expected.extend_from_slice(&[16, 0, 0, 0]);
    expected.extend_from_slice(b"WAVELIST");
    expected.extend_from_slice(&[4, 0, 0, 0]);
    expected.extend_from_slice(b"INFO");
    assert_eq!(out, expected);
}

#[test]
fn text_fields_are_set_read_and_removed() {
    let mut tag = RiffTag::new();
    tag.set_title("Title");
    tag.set_artist("Artist");
    tag.set_date("2021-04-01");
    tag.set_copyright("(c) Somebody");
    tag.set_genre("Jazz");
    tag.set_album_title("Album");
    assert_eq!(tag.title(), Some("Title"));
    assert_eq!(tag.artist_str(), Some("Artist"));
    assert_eq!(tag.date(), Some("2021-04-01".to_string()));
    assert_eq!(tag.copyright(), Some("(c) Somebody"));
    assert_eq!(tag.genre(), Some("Jazz"));
    assert_eq!(tag.album_title(), Some("Album"));
    let entries = entries_of(&tag.serialize().unwrap());
    assert_eq!(
        entries,
        vec![
            chunk(b"INAM", b"Title"),
            chunk(b"IART", b"Artist"),
            chunk(b"ICRD", b"2021-04-01"),
            chunk(b"ICOP", b"(c) Somebody"),
            chunk(b"IGNR", b"Jazz"),
            chunk(b"IPRD", b"Album"),
        ]
    );
    tag.remove_title();
    tag.remove_artist();
    tag.remove_date();
    tag.remove_copyright();
    tag.remove_genre();
    tag.remove_album_title();
    assert_eq!(tag.title(), None);
    assert_eq!(tag.artist_str(), None);
    assert_eq!(tag.date(), None);
    assert_eq!(tag.copyright(), None);
    assert_eq!(tag.genre(), None);
    assert_eq!(tag.album_title(), None);
    assert_eq!(entries_of(&tag.serialize().unwrap()), vec![]);
}

#[test]
fn setting_one_field_leaves_the_others() {
    let mut tag = RiffTag::new();
    tag.set_title("T");
    tag.set_artist("A");
    tag.set_title("T2");
    assert_eq!(tag.title(), Some("T2"));
    assert_eq!(tag.artist_str(), Some("A"));
    tag.remove_title();
    assert_eq!(tag.artist_str(), Some("A"));
}

#[test]
fn number_fields_are_set_read_and_removed() {
    let mut tag = RiffTag::new();
    tag.set_track_number(4294967295);
    tag.set_total_tracks(0);
    tag.set_disc_number(2);
    assert_eq!(tag.track_number(), Some(4294967295));
    assert_eq!(tag.total_tracks(), Some(0));
    assert_eq!(tag.disc_number(), Some(2));
    tag.remove_track_number();
    assert_eq!(tag.track_number(), None);
    assert_eq!(tag.total_tracks(), Some(0));
    tag.remove_total_tracks();
    assert_eq!(tag.total_tracks(), None);
    tag.remove_disc_number();
    assert_eq!(tag.disc_number(), None);
}

#[test]
fn remove_track_removes_number_and_total() {
    let mut tag = RiffTag::new();
    tag.set_title("keep");
    tag.set_track_number(1);
    tag.set_total_tracks(9);
    tag.remove_track();
    assert_eq!(tag.track_number(), None);
    assert_eq!(tag.total_tracks(), None);
    assert_eq!(tag.title(), Some("keep"));
}

#[test]
fn discs_have_one_entry() {
    let mut tag = RiffTag::new();
    tag.set_disc_number(1);
    assert_eq!(tag.total_discs(), Some(1));
    tag.set_total_discs(3);
    assert_eq!(tag.disc_number(), Some(3));
    assert_eq!(tag.total_discs(), Some(3));
    assert_eq!(entries_of(&tag.serialize().unwrap()), vec![chunk(b"DISC", b"3")]);
    tag.remove_total_discs();
    assert_eq!(tag.disc_number(), None);
    tag.set_disc_number(4);
    tag.remove_disc();
    assert_eq!(tag.total_discs(), None);
}

#[test]
fn canonical_identifier_wins_over_older_ones() {
    let stream = wave(vec![info_list(&[
        (b"TRAC", b"9"),
        (b"IPRT", b"8"),
        (b"ITRK", b"7"),
        (b"ALBU", b"old"),
        (b"IPRD", b"new"),
    ])]);
    let tag = RiffTag::read_from(&stream).unwrap();
    assert_eq!(tag.track_number(), Some(7));
    assert_eq!(tag.album_title(), Some("new"));
    assert_eq!(tag.get(Field::TrackNumber), Some(&b"7"[..]));
}

#[test]
fn older_identifiers_are_read_in_order() {
    let stream = wave(vec![info_list(&[(b"TRAC", b"9"), (b"IPRT", b"8"), (b"ALBU", b"old")])]);
    let mut tag = RiffTag::read_from(&stream).unwrap();
    assert_eq!(tag.track_number(), Some(8));
    assert_eq!(tag.album_title(), Some("old"));
    let only_trac = wave(vec![info_list(&[(b"TRAC", b"9")])]);
    assert_eq!(RiffTag::read_from(&only_trac).unwrap().track_number(), Some(9));
    tag.set_track_number(1);
    tag.set_album_title("new");
    assert_eq!(tag.track_number(), Some(1));
    assert_eq!(tag.album_title(), Some("new"));
    tag.remove_track_number();
    tag.remove_album_title();
    assert_eq!(tag.track_number(), Some(8));
    assert_eq!(tag.album_title(), Some("old"));
}

#[test]
fn text_that_is_no_number_reads_as_none() {
    let stream = wave(vec![info_list(&[
        (b"ITRK", b"three"),
        (b"IPRT", b"3"),
        (b"IFRM", b"3/12"),
        (b"DISC", b""),
    ])]);
    let tag = RiffTag::read_from(&stream).unwrap();
    assert_eq!(tag.track_number(), None);
    assert_eq!(tag.total_tracks(), None);
    assert_eq!(tag.disc_number(), None);
    assert_eq!(tag.total_discs(), None);
    assert_eq!(tag.get_value("ITRK"), Some("three"));
}

#[test]
fn bytes_that_are_no_text_read_as_none() {
    let stream = wave(vec![info_list(&[(b"INAM", &[0xff, 0xfe]), (b"IART", b"ok")])]);
    let tag = RiffTag::read_from(&stream).unwrap();
    assert_eq!(tag.title(), None);
    assert_eq!(tag.get(Field::Title), Some(&[0xff, 0xfe][..]));
    assert_eq!(tag.artist_str(), Some("ok"));
    let out = tag.serialize().unwrap();
    assert_eq!(entries_of(&out), vec![chunk(b"INAM", &[0xff, 0xfe]), chunk(b"IART", b"ok")]);
}

#[test]
fn last_of_equal_identifiers_wins() {
    let stream = wave(vec![info_list(&[
        (b"INAM", b"first"),
        (b"IART", b"Band"),
        (b"INAM", b"second"),
    ])]);
    let tag = RiffTag::read_from(&stream).unwrap();
    assert_eq!(tag.title(), Some("second"));
    let entries = entries_of(&tag.serialize().unwrap());
    assert_eq!(entries, vec![chunk(b"INAM", b"second"), chunk(b"IART", b"Band")]);
}

#[test]
fn first_info_list_is_the_tag() {
    let stream = wave(vec![
        chunk(b"LIST", b"adtl"),
        info_list(&[(b"INAM", b"one")]),
        info_list(&[(b"INAM", b"two")]),
    ]);
    let tag = RiffTag::read_from(&stream).unwrap();
    assert_eq!(tag.title(), Some("one"));
}

#[test]
fn container_without_info_list_gives_an_empty_tag() {
    let stream = wave(vec![chunk(b"fmt ", &[0; 16]), chunk(b"LIST", b"adt")]);
    let tag = RiffTag::read_from(&stream).unwrap();
    assert_eq!(tag.title(), None);
    assert_eq!(entries_of(&tag.serialize().unwrap()), vec![]);
}

#[test]
fn malformed_streams_give_no_tag() {
    assert!(matches!(RiffTag::read_from(b""), Err(Error::MalformedContainer)));
    assert!(matches!(RiffTag::read_from(b"RIFX\x04\x00\x00\x00WAVE"), Err(Error::MalformedContainer)));
    let mut list = b"INFO".to_vec();
    list.extend_from_slice(b"INAM\x09\x00\x00\x00abc");
    let stream = wave(vec![Chunk { id: *b"LIST", data: list }]);
    assert!(matches!(RiffTag::read_from(&stream), Err(Error::MalformedContainer)));
    let mut cut = wave(vec![info_list(&[(b"INAM", b"Song")])]);
    cut.truncate(cut.len() - 2);
    assert!(matches!(RiffTag::read_from(&cut), Err(Error::MalformedContainer)));
}

#[test]
fn writing_keeps_the_other_chunks() {
    let stream = wave(vec![
        chunk(b"fmt ", &[1; 16]),
        info_list(&[(b"INAM", b"old")]),
        chunk(b"data", &[7; 9]),
    ]);
    let mut tag = RiffTag::read_from(&stream).unwrap();
    tag.set_title("a new and longer title");
    tag.set_genre("Rock");
    let out = tag.write_to(&stream).unwrap();
    let container = parse(&out).unwrap();
    assert_eq!(container.form, *b"WAVE");
    assert_eq!(container.chunks.len(), 3);
    assert_eq!(container.chunks[0], chunk(b"fmt ", &[1; 16]));
    assert_eq!(
        container.chunks[1],
        info_list(&[(b"INAM", b"a new and longer title"), (b"IGNR", b"Rock")])
    );
    assert_eq!(container.chunks[2], chunk(b"data", &[7; 9]));
    let size = u32::from_le_bytes([out[4], out[5], out[6], out[7]]) as usize;
    assert_eq!(size, out.len() - 8);
}

#[test]
fn writing_appends_the_list_where_there_is_none() {
    let stream = serialize(&Container {
        form: *b"AVI ",
        chunks: vec![chunk(b"hdrl", &[1, 2, 3])],
    })
    .unwrap();
    let mut tag = RiffTag::new();
    tag.set_artist("Band");
    let out = tag.write_to(&stream).unwrap();
    let container = parse(&out).unwrap();
    assert_eq!(container.form, *b"AVI ");
    assert_eq!(
        container.chunks,
        vec![chunk(b"hdrl", &[1, 2, 3]), info_list(&[(b"IART", b"Band")])]
    );
}

#[test]
fn writing_to_a_malformed_stream_fails() {
    let mut tag = RiffTag::new();
    tag.set_artist("Band");
    assert_eq!(tag.write_to(b"not a container"), Err(Error::MalformedContainer));
    assert_eq!(tag.write_to(b""), Err(Error::MalformedContainer));
}

#[test]
fn a_written_tag_is_read_back() {
    let mut tag = RiffTag::new();
    tag.set_title("Song");
    tag.set_artist("Band");
    tag.set_album_title("Album");
    tag.set_track_number(3);
    tag.set_value("ISFT", "an encoder");
    let stream = wave(vec![chunk(b"data", &[0; 5]), info_list(&[(b"ICMT", b"gone")])]);
    let back = RiffTag::read_from(&tag.write_to(&stream).unwrap()).unwrap();
    assert_eq!(back.title(), Some("Song"));
    assert_eq!(back.artist_str(), Some("Band"));
    assert_eq!(back.album_title(), Some("Album"));
    assert_eq!(back.track_number(), Some(3));
    assert_eq!(back.get_value("ISFT"), Some("an encoder"));
    assert_eq!(back.get_value("ICMT"), None);
}

#[test]
fn values_are_kept_under_keys() {
    let mut tag = RiffTag::new();
    assert_eq!(tag.get_value("INAM"), None);
    tag.set_value("INAM", "Song");
    tag.set_value("ISFT", "Tool");
    assert_eq!(tag.get_value("INAM"), Some("Song"));
    assert_eq!(tag.title(), Some("Song"));
    tag.set_value("INAM", "Other");
    assert_eq!(tag.get_value("INAM"), Some("Other"));
    assert_eq!(tag.get_value("ISFT"), Some("Tool"));
    tag.remove_key("INAM");
    assert_eq!(tag.get_value("INAM"), None);
    assert_eq!(tag.get_value("ISFT"), Some("Tool"));
    tag.remove_key("INAM");
    assert_eq!(tag.get_value("ISFT"), Some("Tool"));
}

#[test]
fn keys_that_are_not_four_bytes_name_nothing() {
    let mut tag = RiffTag::new();
    tag.set_value("TITLE", "Song");
    tag.set_value("", "x");
    tag.set_value("ÄÖ", "four bytes, two characters");
    assert_eq!(tag.get_value("TITLE"), None);
    assert_eq!(tag.get_value(""), None);
    assert_eq!(tag.get_value("ÄÖ"), Some("four bytes, two characters"));
    tag.remove_key("TITLE");
    tag.remove_key("ÄÖ");
    assert_eq!(tag.get_value("ÄÖ"), None);
    assert_eq!(entries_of(&tag.serialize().unwrap()), vec![]);
}

#[test]
fn fields_are_read_and_written_as_bytes() {
    let mut tag = RiffTag::new();
    assert_eq!(tag.get(Field::Genre), None);
    tag.set(Field::Genre, b"Blues");
    tag.set(Field::AlbumTitle, b"LP");
    assert_eq!(tag.get(Field::Genre), Some(&b"Blues"[..]));
    assert_eq!(tag.genre(), Some("Blues"));
    assert_eq!(tag.get_value("IPRD"), Some("LP"));
    tag.remove(Field::Genre);
    assert_eq!(tag.get(Field::Genre), None);
}

#[test]
fn the_key_map_gives_the_identifiers() {
    assert_eq!(Field::Title.canonical_id(), *b"INAM");
    assert_eq!(Field::Artist.canonical_id(), *b"IART");
    assert_eq!(Field::Date.canonical_id(), *b"ICRD");
    assert_eq!(Field::Copyright.canonical_id(), *b"ICOP");
    assert_eq!(Field::Genre.canonical_id(), *b"IGNR");
    assert_eq!(Field::AlbumTitle.canonical_id(), *b"IPRD");
    assert_eq!(Field::TrackNumber.canonical_id(), *b"ITRK");
    assert_eq!(Field::TotalTracks.canonical_id(), *b"IFRM");
    assert_eq!(Field::DiscNumber.canonical_id(), *b"DISC");
    assert_eq!(Field::AlbumTitle.candidate_count(), 2);
    assert_eq!(Field::AlbumTitle.candidate(1), *b"ALBU");
    assert_eq!(Field::TrackNumber.candidate_count(), 3);
    assert_eq!(Field::TrackNumber.candidate(1), *b"IPRT");
    assert_eq!(Field::TrackNumber.candidate(2), *b"TRAC");
    assert_eq!(Field::Title.candidate_count(), 1);
}

#[test]
fn a_store_keeps_the_order_of_first_writes() {
    let mut store = TagStore::new();
    store.insert(*b"BBBB", b"1");
    store.insert(*b"AAAA", b"2");
    store.insert(*b"BBBB", b"3");
    assert_eq!(store.len(), 2);
    assert_eq!(store.entries(), &vec![chunk(b"BBBB", b"3"), chunk(b"AAAA", b"2")]);
    assert_eq!(store.entry(1), &chunk(b"AAAA", b"2"));
    assert_eq!(store.get(b"BBBB"), Some(&b"3"[..]));
    assert_eq!(store.get(b"CCCC"), None);
    store.remove(b"BBBB");
    store.remove(b"CCCC");
    assert_eq!(store.entries(), &vec![chunk(b"AAAA", b"2")]);
    let collected = TagStore::from_chunks(&vec![
        chunk(b"AAAA", b"x"),
        chunk(b"BBBB", b"y"),
        chunk(b"AAAA", b"z"),
    ]);
    assert_eq!(collected.entries(), &vec![chunk(b"AAAA", b"z"), chunk(b"BBBB", b"y")]);
}
