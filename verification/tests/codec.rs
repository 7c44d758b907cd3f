use lofty::chunk::{parse, parse_chunks, serialize, serialize_chunks};
use lofty::{Chunk, Container, Error};

fn chunk(id: &[u8; 4], data: &[u8]) -> Chunk {
    Chunk { id: *id, data: data.to_vec() }
}

#[test]
fn one_chunk_is_written_byte_for_byte() {
    let bytes = serialize_chunks(&vec![chunk(b"INAM", b"abc")]).unwrap();
    assert_eq!(bytes, vec![0x49, 0x4e, 0x41, 0x4d, 3, 0, 0, 0, 0x61, 0x62, 0x63, 0]);
}

#[test]
fn even_payload_gets_no_padding() {
    let bytes = serialize_chunks(&vec![chunk(b"IART", b"Band")]).unwrap();
    assert_eq!(bytes, vec![0x49, 0x41, 0x52, 0x54, 4, 0, 0, 0, 0x42, 0x61, 0x6e, 0x64]);
}

#[test]
fn length_is_little_endian() {
    let data = vec![7u8; 0x0102];
    let bytes = serialize_chunks(&vec![chunk(b"data", &data)]).unwrap();
    assert_eq!(&bytes[4..8], &[0x02, 0x01, 0x00, 0x00]);
    assert_eq!(bytes.len(), 8 + 0x0102);
}

#[test]
fn chunks_round_trip() {
    let chunks = vec![
        chunk(b"fmt ", &[1, 2, 3, 4, 5]),
        chunk(b"XTRA", b""),
        chunk(b"data", &[9; 7]),
        chunk(b"LIST", b"INFOINAM"),
        chunk(b"XTRA", &[0xff]),
    ];
    let bytes = serialize_chunks(&chunks).unwrap();
    assert_eq!(parse_chunks(&bytes), Ok(chunks));
}

#[test]
fn empty_bytes_hold_no_chunks() {
    assert_eq!(parse_chunks(&[]), Ok(vec![]));
    assert_eq!(serialize_chunks(&vec![]), Ok(vec![]));
}

#[test]
fn chunk_header_cut_short_is_malformed() {
    assert_eq!(parse_chunks(&[0x49, 0x4e, 0x41, 0x4d, 0, 0, 0]), Err(Error::MalformedContainer));
}

#[test]
fn chunk_length_past_the_end_is_malformed() {
    let bytes = vec![0x49, 0x4e, 0x41, 0x4d, 4, 0, 0, 0, 1, 2, 3];
    assert_eq!(parse_chunks(&bytes), Err(Error::MalformedContainer));
}

#[test]
fn huge_chunk_length_is_malformed() {
    let bytes = vec![0x49, 0x4e, 0x41, 0x4d, 0xff, 0xff, 0xff, 0xff, 1, 2, 3];
    assert_eq!(parse_chunks(&bytes), Err(Error::MalformedContainer));
}

#[test]
fn missing_last_padding_byte_is_let_pass() {
    let bytes = vec![0x49, 0x4e, 0x41, 0x4d, 3, 0, 0, 0, 0x61, 0x62, 0x63];
    assert_eq!(parse_chunks(&bytes), Ok(vec![chunk(b"INAM", b"abc")]));
}

#[test]
fn padding_byte_is_skipped_between_chunks() {
    let mut bytes = vec![0x49, 0x4e, 0x41, 0x4d, 1, 0, 0, 0, 0x61, 0x55];
    bytes.extend_from_slice(&[0x49, 0x41, 0x52, 0x54, 2, 0, 0, 0, 0x62, 0x63]);
    assert_eq!(parse_chunks(&bytes), Ok(vec![chunk(b"INAM", b"a"), chunk(b"IART", b"bc")]));
}

#[test]
fn container_is_written_byte_for_byte() {
    let c = Container { form: *b"WAVE", chunks: vec![chunk(b"data", &[1, 2, 3])] };
    let bytes = serialize(&c).unwrap();
    let mut expected = b"RIFF".to_vec();
    expected.extend_from_slice(&[16, 0, 0, 0]);
    expected.extend_from_slice(b"WAVE");
    expected.extend_from_slice(b"data");
    expected.extend_from_slice(&[3, 0, 0, 0, 1, 2, 3, 0]);
    assert_eq!(bytes, expected);
}

#[test]
fn size_field_counts_the_bytes_that_follow() {
    let c = Container {
        form: *b"WAVE",
        chunks: vec![chunk(b"fmt ", &[0; 16]), chunk(b"data", &[1; 33]), chunk(b"odd ", &[5])],
    };
    let bytes = serialize(&c).unwrap();
    let size = u32::from_le_bytes([bytes[4], bytes[5], bytes[6], bytes[7]]) as usize;
    assert_eq!(size, bytes.len() - 8);
    assert_eq!(size, 4 + (8 + 16) + (8 + 33 + 1) + (8 + 1 + 1));
}

#[test]
fn container_round_trip() {
    let c = Container {
        form: *b"AVI ",
        chunks: vec![chunk(b"hdrl", &[3; 5]), chunk(b"movi", &[])],
    };
    let bytes = serialize(&c).unwrap();
    assert_eq!(parse(&bytes), Ok(c));
}

#[test]
fn empty_container_round_trip() {
    let c = Container { form: *b"WAVE", chunks: vec![] };
    let bytes = serialize(&c).unwrap();
    assert_eq!(bytes.len(), 12);
    assert_eq!(parse(&bytes), Ok(c));
}

#[test]
fn wrong_signature_is_malformed() {
    let c = Container { form: *b"WAVE", chunks: vec![] };
    let mut bytes = serialize(&c).unwrap();
    bytes[0] = b'X';
    assert_eq!(parse(&bytes), Err(Error::MalformedContainer));
}

#[test]
fn container_header_cut_short_is_malformed() {
    assert_eq!(parse(b"RIFF\x04\x00\x00\x00WAV"), Err(Error::MalformedContainer));
    assert_eq!(parse(b""), Err(Error::MalformedContainer));
}

#[test]
fn size_past_the_end_is_malformed() {
    let c = Container { form: *b"WAVE", chunks: vec![chunk(b"data", &[1, 2])] };
    let mut bytes = serialize(&c).unwrap();
    bytes.pop();
    assert_eq!(parse(&bytes), Err(Error::MalformedContainer));
}

#[test]
fn size_without_room_for_the_form_is_malformed() {
    assert_eq!(parse(b"RIFF\x03\x00\x00\x00WAVE"), Err(Error::MalformedContainer));
}

#[test]
fn bytes_beyond_the_size_are_not_read() {
    let c = Container { form: *b"WAVE", chunks: vec![chunk(b"data", &[1, 2])] };
    let mut bytes = serialize(&c).unwrap();
    bytes.extend_from_slice(&[0xde, 0xad, 0xbe]);
    assert_eq!(parse(&bytes), Ok(c));
}

#[test]
fn malformed_chunk_inside_container_is_malformed() {
    let mut bytes = b"RIFF".to_vec();
    bytes.extend_from_slice(&[9, 0, 0, 0]);
    bytes.extend_from_slice(b"WAVEdata\x01");
    assert_eq!(parse(&bytes), Err(Error::MalformedContainer));
}
