//! The tag of a RIFF file: the INFO list.
//!
//! `RiffTag` owns one store of values under chunk identifiers; `self@` is
//! what the store holds. Fields are read and written through the key map.
//! Text is kept as its UTF-8 bytes, numbers as decimal text. Reading a tag
//! from a container and writing it back are computations on bytes: nothing
//! here touches a file.

use vstd::prelude::*;
use vstd::slice::slice_subrange;
use vstd::string::{StringExecFns, StringSliceAdditionalSpecFns};
use crate::chunk::{
    all_writable, append, chunks_bytes, chunks_view, container_bytes, fits,
    lemma_chunks_round_trip, lemma_container_round_trip, parse, parse_chunks, parsed_chunks,
    parsed_container, read_id, same_id, serialize, serialize_chunks, Chunk, ChunkView, Container,
    ContainerView,
};
use crate::decimal::{digits_of, format_u32, parse_u32};
use crate::error::Error;
use crate::riff_fields::{
    field_bytes, field_number, field_text, first_present, with_field, without_field, Field,
};
use crate::store::{
    collected, distinct, lemma_collected_distinct, lookup, with_entry, without_entry, TagStore,
};
use crate::text::{bytes_to_text, opt_str_view, opt_string_view, opt_text_of};

verus! {

/// `LIST`, the identifier of a list chunk.
pub const LIST: [u8; 4] = [76, 73, 83, 84];

/// `INFO`, the kind of the list that holds the tag.
pub const INFO: [u8; 4] = [73, 78, 70, 79];

/// `WAVE`, the form type of a container that is made anew.
pub const WAVE: [u8; 4] = [87, 65, 86, 69];

/// Whether a chunk is an INFO list.
pub open spec fn is_info_list(c: ChunkView) -> bool {
    c.id == LIST@ && c.data.len() >= 4 && c.data.subrange(0, 4) == INFO@
}

/// The index of the first INFO list among chunks.
pub open spec fn info_position(cs: Seq<ChunkView>) -> Option<int>
    decreases cs.len(),
{
    if cs.len() == 0 {
        None
    } else {
        match info_position(cs.drop_last()) {
            Some(i) => Some(i),
            None => if is_info_list(cs.last()) {
                Some(cs.len() - 1)
            } else {
                None
            },
        }
    }
}

/// The INFO list that holds the given entries.
pub open spec fn info_chunk(entries: Seq<ChunkView>) -> ChunkView {
    ChunkView { id: LIST@, data: INFO@ + chunks_bytes(entries) }
}

/// The chunks with `info` in the place of the first INFO list, or else at
/// the end.
pub open spec fn with_info(cs: Seq<ChunkView>, info: ChunkView) -> Seq<ChunkView> {
    match info_position(cs) {
        Some(i) => cs.update(i, info),
        None => cs.push(info),
    }
}

/// What a tag holds after it was read from the bytes of a container: the
/// entries of the first INFO list, the last of equal identifiers winning;
/// nothing at all where the container has no INFO list. The bytes give no
/// tag where the container or the list is malformed.
pub open spec fn read_store(b: Seq<u8>) -> Option<Seq<ChunkView>> {
    match parsed_container(b) {
        Some(c) => match info_position(c.chunks) {
            Some(i) => match parsed_chunks(c.chunks[i].data.skip(4)) {
                Some(entries) => Some(collected(entries)),
                None => None,
            },
            None => Some(Seq::<ChunkView>::empty()),
        },
        None => None,
    }
}

/// The container that holds the chunks of `c` and the given entries as its
/// INFO list.
pub open spec fn with_tag(c: ContainerView, entries: Seq<ChunkView>) -> ContainerView {
    ContainerView { form: c.form, chunks: with_info(c.chunks, info_chunk(entries)) }
}

/// The bytes of the container `b` after a tag with the given entries was
/// written to it: all chunks stay as they are and where they are, but for
/// the INFO list. Nothing where `b` is malformed or the result is too large.
pub open spec fn written(entries: Seq<ChunkView>, b: Seq<u8>) -> Option<Seq<u8>> {
    match parsed_container(b) {
        Some(c) => if all_writable(entries) && fits(with_tag(c, entries)) {
            Some(container_bytes(with_tag(c, entries)))
        } else {
            None
        },
        None => None,
    }
}

/// A container of form `WAVE` without chunks.
pub open spec fn empty_wave() -> ContainerView {
    ContainerView { form: WAVE@, chunks: Seq::<ChunkView>::empty() }
}

/// The value under a key as text. A key that is not four bytes long names
/// no chunk.
pub open spec fn value_under(s: Seq<ChunkView>, key: Seq<u8>) -> Option<Seq<char>> {
    if key.len() == 4 {
        opt_text_of(lookup(s, key))
    } else {
        None
    }
}

/// The entries after a value was written under a key. A key that is not
/// four bytes long names no chunk: nothing is written.
pub open spec fn with_value(s: Seq<ChunkView>, key: Seq<u8>, value: Seq<u8>) -> Seq<ChunkView> {
    if key.len() == 4 {
        with_entry(s, key, value)
    } else {
        s
    }
}

/// The entries after the value under a key was removed.
pub open spec fn without_key(s: Seq<ChunkView>, key: Seq<u8>) -> Seq<ChunkView> {
    if key.len() == 4 {
        without_entry(s, key)
    } else {
        s
    }
}

/// What `info_position` finds: the first INFO list, or that there is none.
pub proof fn lemma_info_position(cs: Seq<ChunkView>)
    ensures
        match info_position(cs) {
            Some(i) => 0 <= i < cs.len() && is_info_list(cs[i]) && forall|j: int|
                0 <= j < i ==> !is_info_list(#[trigger] cs[j]),
            None => forall|j: int| 0 <= j < cs.len() ==> !is_info_list(#[trigger] cs[j]),
        },
    decreases cs.len(),
{
    if cs.len() > 0 {
        lemma_info_position(cs.drop_last());
        match info_position(cs.drop_last()) {
            Some(i) => {
                assert forall|j: int| 0 <= j < i implies !is_info_list(#[trigger] cs[j]) by {
                    assert(cs.drop_last()[j] == cs[j]);
                }
                assert(cs.drop_last()[i] == cs[i]);
            },
            None => {
                assert forall|j: int| 0 <= j < cs.len() - 1 implies !is_info_list(
                    #[trigger] cs[j],
                ) by {
                    assert(cs.drop_last()[j] == cs[j]);
                }
            },
        }
    }
}

/// After a tag was put into a container, its INFO list is the first one.
pub proof fn lemma_with_info(cs: Seq<ChunkView>, entries: Seq<ChunkView>)
    ensures
        info_position(with_info(cs, info_chunk(entries))) is Some,
        with_info(cs, info_chunk(entries))[info_position(
            with_info(cs, info_chunk(entries)),
        )->Some_0] == info_chunk(entries),
{
    let info = info_chunk(entries);
    let t = with_info(cs, info);
    assert(info.data.subrange(0, 4) =~= INFO@);
    assert(is_info_list(info));
    lemma_info_position(cs);
    lemma_info_position(t);
    match info_position(cs) {
        Some(i) => {
            assert(t[i] == info);
            assert forall|j: int| 0 <= j < i implies !is_info_list(#[trigger] t[j]) by {
                assert(t[j] == cs[j]);
            }
        },
        None => {
            assert(t[cs.len() as int] == info);
            assert forall|j: int| 0 <= j < cs.len() implies !is_info_list(#[trigger] t[j]) by {
                assert(t[j] == cs[j]);
            }
        },
    }
}

/// A tag that was put into a container is read back from the bytes of the
/// container as it was.
pub proof fn lemma_tag_is_read(c: ContainerView, entries: Seq<ChunkView>)
    requires
        distinct(entries),
        all_writable(entries),
        fits(with_tag(c, entries)),
    ensures
        read_store(container_bytes(with_tag(c, entries))) == Some(entries),
{
    let out = with_tag(c, entries);
    lemma_container_round_trip(out);
    lemma_with_info(c.chunks, entries);
    let k = info_position(out.chunks)->Some_0;
    assert(out.chunks[k].data.skip(4) =~= chunks_bytes(entries));
    lemma_chunks_round_trip(entries);
    lemma_collected_distinct(entries);
}

/// A tag that was written to a container is read back from it as it was.
pub proof fn lemma_written_is_read(entries: Seq<ChunkView>, b: Seq<u8>)
    requires
        distinct(entries),
        written(entries, b) is Some,
    ensures
        read_store(written(entries, b)->Some_0) == Some(entries),
{
    lemma_tag_is_read(parsed_container(b)->Some_0, entries);
}

/// In a container that a tag was written to, every chunk but the INFO list
/// is the chunk that was there, at its place.
pub proof fn lemma_written_keeps_chunks(entries: Seq<ChunkView>, b: Seq<u8>, i: int)
    requires
        written(entries, b) is Some,
        0 <= i < parsed_container(b)->Some_0.chunks.len(),
        info_position(parsed_container(b)->Some_0.chunks) != Some(i),
    ensures
        parsed_container(written(entries, b)->Some_0) is Some,
        parsed_container(written(entries, b)->Some_0)->Some_0.form == parsed_container(
            b,
        )->Some_0.form,
        parsed_container(written(entries, b)->Some_0)->Some_0.chunks[i] == parsed_container(
            b,
        )->Some_0.chunks[i],
{
    let c = parsed_container(b)->Some_0;
    lemma_container_round_trip(with_tag(c, entries));
    lemma_info_position(c.chunks);
}

/// The tag of a RIFF file.
#[derive(Debug)]
pub struct RiffTag {
    store: TagStore,
}

impl View for RiffTag {
    type V = Seq<ChunkView>;

    closed spec fn view(&self) -> Seq<ChunkView> {
        self.store@
    }
}

impl RiffTag {
    /// A tag without entries.
    pub fn new() -> (r: RiffTag)
        ensures
            r@ == Seq::<ChunkView>::empty(),
    {
        RiffTag { store: TagStore::new() }
    }

    /// Where the first INFO list stands among chunks.
    fn find_info(chunks: &Vec<Chunk>) -> (r: Option<usize>)
        ensures
            match r {
                Some(i) => info_position(chunks_view(chunks@)) == Some(i as int) && i
                    < chunks.len(),
                None => info_position(chunks_view(chunks@)) is None,
            },
    {
        let ghost cs = chunks_view(chunks@);
        let mut i: usize = 0;
        while i < chunks.len()
            invariant
                i <= chunks.len(),
                cs == chunks_view(chunks@),
                forall|j: int| 0 <= j < i ==> !is_info_list(#[trigger] cs[j]),
            decreases chunks.len() - i,
        {
            let c = &chunks[i];
            assert(cs[i as int] == c@);
            if same_id(&c.id, &LIST) && c.data.len() >= 4 {
                let kind = read_id(c.data.as_slice(), 0);
                if same_id(&kind, &INFO) {
                    proof {
                        lemma_info_position(cs);
                        assert(is_info_list(cs[i as int]));
                        if let Some(k) = info_position(cs) {
                            assert(is_info_list(cs[k]));
                        }
                    }
                    return Some(i);
                }
            }
            assert(!is_info_list(cs[i as int]));
            i = i + 1;
        }
        proof {
            lemma_info_position(cs);
            if let Some(k) = info_position(cs) {
                assert(is_info_list(cs[k]));
            }
        }
        None
    }

    /// Reads the tag from the bytes of a container: the entries of its
    /// first INFO list. A container without an INFO list gives an empty tag.
    /// Fails where the container or the list is malformed.
    pub fn read_from(stream: &[u8]) -> (r: Result<RiffTag, Error>)
        ensures
            match read_store(stream@) {
                Some(s) => r is Ok && r->Ok_0@ == s,
                None => r is Err && r->Err_0 == Error::MalformedContainer,
            },
    {
        let container = match parse(stream) {
            Ok(c) => c,
            Err(e) => {
                return Err(Error::MalformedContainer);
            },
        };
        match RiffTag::find_info(&container.chunks) {
            Some(i) => {
                let list = &container.chunks[i];
                proof {
                    lemma_info_position(chunks_view(container.chunks@));
                    assert(chunks_view(container.chunks@)[i as int] == list@);
                }
                let body = slice_subrange(list.data.as_slice(), 4, list.data.len());
                assert(body@ =~= list@.data.skip(4));
                match parse_chunks(body) {
                    Ok(entries) => Ok(RiffTag { store: TagStore::from_chunks(&entries) }),
                    Err(e) => Err(Error::MalformedContainer),
                }
            },
            None => Ok(RiffTag::new()),
        }
    }

    /// The INFO list that holds the entries of the tag.
    fn info_list(&self) -> (r: Result<Chunk, Error>)
        ensures
            match r {
                Ok(c) => all_writable(self@) && c@ == info_chunk(self@),
                Err(e) => e == Error::MalformedContainer && !all_writable(self@),
            },
    {
        let body = match serialize_chunks(self.store.entries()) {
            Ok(body) => body,
            Err(e) => {
                return Err(Error::MalformedContainer);
            },
        };
        let mut data: Vec<u8> = Vec::new();
        append(&mut data, INFO.as_slice());
        append(&mut data, body.as_slice());
        assert(data@ =~= INFO@ + chunks_bytes(self@));
        Ok(Chunk { id: LIST, data })
    }

    /// Puts the tag into a container, in the place of its first INFO list or
    /// else after its chunks, and writes the container.
    fn write_into(&self, container: Container) -> (r: Result<Vec<u8>, Error>)
        ensures
            match r {
                Ok(b) => all_writable(self@) && fits(with_tag(container@, self@)) && b@
                    == container_bytes(with_tag(container@, self@)),
                Err(e) => e == Error::MalformedContainer && !(all_writable(self@) && fits(
                    with_tag(container@, self@),
                )),
            },
    {
        let info = match self.info_list() {
            Ok(c) => c,
            Err(e) => {
                return Err(Error::MalformedContainer);
            },
        };
        let mut out = container;
        match RiffTag::find_info(&out.chunks) {
            Some(i) => {
                out.chunks.set(i, info);
            },
            None => {
                out.chunks.push(info);
            },
        }
        assert(out@.chunks =~= with_info(container@.chunks, info_chunk(self@)));
        assert(out@ == with_tag(container@, self@));
        serialize(&out)
    }

    /// Writes the tag to a container, given as bytes, and gives the bytes of
    /// the result: all chunks stay as they are, but for the INFO list.
    /// Fails where the container is malformed or the result is too large.
    /// The tag is read back from the result as it is.
    pub fn write_to(&self, stream: &[u8]) -> (r: Result<Vec<u8>, Error>)
        ensures
            match written(self@, stream@) {
                Some(b) => r is Ok && r->Ok_0@ == b,
                None => r is Err && r->Err_0 == Error::MalformedContainer,
            },
            r matches Ok(b) ==> read_store(b@) == Some(self@),
    {
        proof {
            use_type_invariant(&self.store);
            self.store.lemma_well_formed();
            if written(self@, stream@) is Some {
                lemma_written_is_read(self@, stream@);
            }
        }
        match parse(stream) {
            Ok(container) => self.write_into(container),
            Err(e) => Err(Error::MalformedContainer),
        }
    }

    /// The bytes of a new container of form `WAVE` whose only chunk is the
    /// INFO list of the tag. Fails where the tag is too large. The tag is
    /// read back from the result as it is.
    pub fn serialize(&self) -> (r: Result<Vec<u8>, Error>)
        ensures
            match r {
                Ok(b) => all_writable(self@) && fits(with_tag(empty_wave(), self@)) && b@
                    == container_bytes(with_tag(empty_wave(), self@)),
                Err(e) => e == Error::MalformedContainer && !(all_writable(self@) && fits(
                    with_tag(empty_wave(), self@),
                )),
            },
            r matches Ok(b) ==> read_store(b@) == Some(self@),
    {
        let chunks: Vec<Chunk> = Vec::new();
        let container = Container { form: WAVE, chunks };
        assert(container@.chunks =~= Seq::<ChunkView>::empty());
        proof {
            use_type_invariant(&self.store);
            self.store.lemma_well_formed();
            if all_writable(self@) && fits(with_tag(empty_wave(), self@)) {
                lemma_tag_is_read(empty_wave(), self@);
            }
        }
        self.write_into(container)
    }

    /// The bytes of a field: the value under the first of its identifiers
    /// under which there is one.
    pub fn get(&self, field: Field) -> (r: Option<&[u8]>)
        ensures
            match r {
                Some(b) => field_bytes(self@, field) == Some(b@),
                None => field_bytes(self@, field) is None,
            },
    {
        let ghost ids = field.candidates();
        let n = field.candidate_count();
        let mut i: usize = 0;
        assert(ids.skip(0) =~= ids);
        while i < n
            invariant
                i <= n,
                n == ids.len(),
                ids == field.candidates(),
                field_bytes(self@, field) == first_present(self@, ids.skip(i as int)),
            decreases n - i,
        {
            let id = field.candidate(i);
            assert(ids.skip(i as int)[0] == ids[i as int]);
            assert(ids.skip(i as int).drop_first() =~= ids.skip(i + 1));
            match self.store.get(&id) {
                Some(b) => {
                    return Some(b);
                },
                None => {},
            }
            i = i + 1;
        }
        None
    }

    /// Writes a field, under its canonical identifier.
    pub fn set(&mut self, field: Field, value: &[u8])
        ensures
            final(self)@ == with_field(old(self)@, field, value@),
    {
        self.store.insert(field.canonical_id(), value)
    }

    /// Removes the canonical entry of a field.
    pub fn remove(&mut self, field: Field)
        ensures
            final(self)@ == without_field(old(self)@, field),
    {
        let id = field.canonical_id();
        self.store.remove(&id)
    }

    /// The text of a field.
    fn text(&self, field: Field) -> (r: Option<&str>)
        ensures
            opt_str_view(r) == field_text(self@, field),
    {
        match self.get(field) {
            Some(b) => bytes_to_text(b),
            None => None,
        }
    }

    /// The number of a field.
    fn number(&self, field: Field) -> (r: Option<u32>)
        ensures
            r == field_number(self@, field),
    {
        match self.get(field) {
            Some(b) => parse_u32(b),
            None => None,
        }
    }

    /// Writes a number as decimal text.
    fn set_number(&mut self, field: Field, n: u32)
        ensures
            final(self)@ == with_field(old(self)@, field, digits_of(n as nat)),
    {
        let digits = format_u32(n);
        self.set(field, digits.as_slice())
    }

    /// The value under a key, as text.
    pub fn get_value(&self, key: &str) -> (r: Option<&str>)
        ensures
            opt_str_view(r) == value_under(self@, key.spec_bytes()),
    {
        let k = key.as_bytes();
        if k.len() != 4 {
            return None;
        }
        let id = read_id(k, 0);
        assert(id@ =~= k@);
        match self.store.get(&id) {
            Some(b) => bytes_to_text(b),
            None => None,
        }
    }

    /// Writes a value under a key.
    pub fn set_value(&mut self, key: &str, val: &str)
        ensures
            final(self)@ == with_value(old(self)@, key.spec_bytes(), val.spec_bytes()),
    {
        let k = key.as_bytes();
        if k.len() == 4 {
            let id = read_id(k, 0);
            assert(id@ =~= k@);
            self.store.insert(id, val.as_bytes())
        }
    }

    /// Removes the value under a key.
    pub fn remove_key(&mut self, key: &str)
        ensures
            final(self)@ == without_key(old(self)@, key.spec_bytes()),
    {
        let k = key.as_bytes();
        if k.len() == 4 {
            let id = read_id(k, 0);
            assert(id@ =~= k@);
            self.store.remove(&id)
        }
    }

    /// The title.
    pub fn title(&self) -> (r: Option<&str>)
        ensures
            opt_str_view(r) == field_text(self@, Field::Title),
    {
        self.text(Field::Title)
    }

    /// Sets the title.
    pub fn set_title(&mut self, title: &str)
        ensures
            final(self)@ == with_field(old(self)@, Field::Title, title.spec_bytes()),
    {
        self.set(Field::Title, title.as_bytes())
    }

    /// Removes the title.
    pub fn remove_title(&mut self)
        ensures
            final(self)@ == without_field(old(self)@, Field::Title),
    {
        self.remove(Field::Title)
    }

    /// The artist.
    pub fn artist_str(&self) -> (r: Option<&str>)
        ensures
            opt_str_view(r) == field_text(self@, Field::Artist),
    {
        self.text(Field::Artist)
    }

    /// Sets the artist.
    pub fn set_artist(&mut self, artist: &str)
        ensures
            final(self)@ == with_field(old(self)@, Field::Artist, artist.spec_bytes()),
    {
        self.set(Field::Artist, artist.as_bytes())
    }

    /// Adds an artist. The list holds one value under an identifier: the
    /// artist that is added last is the one that stays.
    pub fn add_artist(&mut self, artist: &str)
        ensures
            final(self)@ == with_field(old(self)@, Field::Artist, artist.spec_bytes()),
    {
        self.set_artist(artist)
    }

    /// Removes the artist.
    pub fn remove_artist(&mut self)
        ensures
            final(self)@ == without_field(old(self)@, Field::Artist),
    {
        self.remove(Field::Artist)
    }

    /// The date.
    pub fn date(&self) -> (r: Option<String>)
        ensures
            opt_string_view(r) == field_text(self@, Field::Date),
    {
        match self.text(Field::Date) {
            Some(s) => Some(String::from_str(s)),
            None => None,
        }
    }

    /// Sets the date.
    pub fn set_date(&mut self, date: &str)
        ensures
            final(self)@ == with_field(old(self)@, Field::Date, date.spec_bytes()),
    {
        self.set(Field::Date, date.as_bytes())
    }

    /// Removes the date.
    pub fn remove_date(&mut self)
        ensures
            final(self)@ == without_field(old(self)@, Field::Date),
    {
        self.remove(Field::Date)
    }

    /// The copyright.
    pub fn copyright(&self) -> (r: Option<&str>)
        ensures
            opt_str_view(r) == field_text(self@, Field::Copyright),
    {
        self.text(Field::Copyright)
    }

    /// Sets the copyright.
    pub fn set_copyright(&mut self, copyright: &str)
        ensures
            final(self)@ == with_field(old(self)@, Field::Copyright, copyright.spec_bytes()),
    {
        self.set(Field::Copyright, copyright.as_bytes())
    }

    /// Removes the copyright.
    pub fn remove_copyright(&mut self)
        ensures
            final(self)@ == without_field(old(self)@, Field::Copyright),
    {
        self.remove(Field::Copyright)
    }

    /// The genre.
    pub fn genre(&self) -> (r: Option<&str>)
        ensures
            opt_str_view(r) == field_text(self@, Field::Genre),
    {
        self.text(Field::Genre)
    }

    /// Sets the genre.
    pub fn set_genre(&mut self, genre: &str)
        ensures
            final(self)@ == with_field(old(self)@, Field::Genre, genre.spec_bytes()),
    {
        self.set(Field::Genre, genre.as_bytes())
    }

    /// Removes the genre.
    pub fn remove_genre(&mut self)
        ensures
            final(self)@ == without_field(old(self)@, Field::Genre),
    {
        self.remove(Field::Genre)
    }

    /// The album's title: under `IPRD`, or else under `ALBU`.
    pub fn album_title(&self) -> (r: Option<&str>)
        ensures
            opt_str_view(r) == field_text(self@, Field::AlbumTitle),
    {
        self.text(Field::AlbumTitle)
    }

    /// Sets the album's title, under `IPRD`.
    pub fn set_album_title(&mut self, title: &str)
        ensures
            final(self)@ == with_field(old(self)@, Field::AlbumTitle, title.spec_bytes()),
    {
        self.set(Field::AlbumTitle, title.as_bytes())
    }

    /// Removes the album's title under `IPRD`.
    pub fn remove_album_title(&mut self)
        ensures
            final(self)@ == without_field(old(self)@, Field::AlbumTitle),
    {
        self.remove(Field::AlbumTitle)
    }

    /// The track's number: under `ITRK`, or else `IPRT`, or else `TRAC`.
    /// Text that is no number reads as none.
    pub fn track_number(&self) -> (r: Option<u32>)
        ensures
            r == field_number(self@, Field::TrackNumber),
    {
        self.number(Field::TrackNumber)
    }

    /// Sets the track's number, under `ITRK`.
    pub fn set_track_number(&mut self, track_number: u32)
        ensures
            final(self)@ == with_field(
                old(self)@,
                Field::TrackNumber,
                digits_of(track_number as nat),
            ),
    {
        self.set_number(Field::TrackNumber, track_number)
    }

    /// Removes the track's number under `ITRK`.
    pub fn remove_track_number(&mut self)
        ensures
            final(self)@ == without_field(old(self)@, Field::TrackNumber),
    {
        self.remove(Field::TrackNumber)
    }

    /// The number of tracks. Text that is no number reads as none.
    pub fn total_tracks(&self) -> (r: Option<u32>)
        ensures
            r == field_number(self@, Field::TotalTracks),
    {
        self.number(Field::TotalTracks)
    }

    /// Sets the number of tracks.
    pub fn set_total_tracks(&mut self, total_track: u32)
        ensures
            final(self)@ == with_field(
                old(self)@,
                Field::TotalTracks,
                digits_of(total_track as nat),
            ),
    {
        self.set_number(Field::TotalTracks, total_track)
    }

    /// Removes the number of tracks.
    pub fn remove_total_tracks(&mut self)
        ensures
            final(self)@ == without_field(old(self)@, Field::TotalTracks),
    {
        self.remove(Field::TotalTracks)
    }

    /// Removes the track's number and the number of tracks together.
    pub fn remove_track(&mut self)
        ensures
            final(self)@ == without_field(
                without_field(old(self)@, Field::TrackNumber),
                Field::TotalTracks,
            ),
    {
        self.remove(Field::TrackNumber);
        self.remove(Field::TotalTracks)
    }

    /// The disc's number. Text that is no number reads as none.
    pub fn disc_number(&self) -> (r: Option<u32>)
        ensures
            r == field_number(self@, Field::DiscNumber),
    {
        self.number(Field::DiscNumber)
    }

    /// Sets the disc's number.
    pub fn set_disc_number(&mut self, disc_number: u32)
        ensures
            final(self)@ == with_field(old(self)@, Field::DiscNumber, digits_of(disc_number as nat)),
    {
        self.set_number(Field::DiscNumber, disc_number)
    }

    /// Removes the disc's number.
    pub fn remove_disc_number(&mut self)
        ensures
            final(self)@ == without_field(old(self)@, Field::DiscNumber),
    {
        self.remove(Field::DiscNumber)
    }

    /// The number of discs. The list has one entry for discs: the number of
    /// discs is the disc's number.
    pub fn total_discs(&self) -> (r: Option<u32>)
        ensures
            r == field_number(self@, Field::DiscNumber),
    {
        self.disc_number()
    }

    /// Sets the number of discs: the one entry for discs.
    pub fn set_total_discs(&mut self, total_discs: u32)
        ensures
            final(self)@ == with_field(old(self)@, Field::DiscNumber, digits_of(total_discs as nat)),
    {
        self.set_disc_number(total_discs)
    }

    /// Removes the number of discs: the one entry for discs.
    pub fn remove_total_discs(&mut self)
        ensures
            final(self)@ == without_field(old(self)@, Field::DiscNumber),
    {
        self.remove_disc_number()
    }

    /// Removes the entry for discs.
    pub fn remove_disc(&mut self)
        ensures
            final(self)@ == without_field(old(self)@, Field::DiscNumber),
    {
        self.remove_disc_number()
    }
}

} // verus!
