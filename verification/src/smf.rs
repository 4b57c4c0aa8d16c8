//! The file as a whole: header chunk, track chunks, and the stream of
//! events in each track with its running status.

use crate::events::{
    create_meta_event, create_midi_event, event_views, meta_event_of, parse_midi_event, Event,
    EventType, EventTypeView, EventView, MIDIEvent, MetaEvent, MetaEventView,
};
use crate::utils::{
    big_endian_value, lemma_big_endian_bound, read_all, read_big_endian_u16, read_big_endian_u32,
    read_vector, ByteReader,
};
use crate::vlq::{
    lemma_parse_vlq_overflow, lemma_parse_vlq_terminated, lemma_parse_vlq_unterminated, parse_vlq,
    vlq_ends_at, vlq_value,
};
use vstd::prelude::*;

verus! {

/// Why a decode failed.
#[derive(Debug, Clone, Copy, PartialEq, Eq, Structural)]
pub enum SMFError {
    /// The byte source ran out before the requested bytes were available.
    IoError,
    /// A chunk did not start with the expected four-byte signature.
    MagicMismatch,
    /// The file header declared a length other than 6.
    HeaderLengthMismatch,
    /// A meta event carried a type byte that is not recognised.
    UnknownMetaEventType,
    /// A status byte does not name a channel voice event.
    UnknownChannelEventType,
    /// A key signature payload is outside the table of valid keys.
    UnknownKeySignature,
    /// A text payload is not well-formed UTF-8.
    InvalidUtf8Text,
    /// A variable-length quantity does not fit in 32 bits.
    VlqOverflow,
    /// A fixed-size meta payload has the wrong number of bytes.
    MalformedPayloadLength,
    /// A fixed-size meta payload has the right size but a value that cannot
    /// be decoded: a tempo of 0, or a time signature whose denominator is
    /// above 128.
    MalformedPayloadValue,
    /// A system-exclusive event was met; its framing is not decoded.
    UnsupportedSysex,
}

/// Reads a variable-length quantity.
pub fn pop_variable_len(track: &mut ByteReader) -> (result: Result<u32, SMFError>)
    ensures
        match parse_vlq(old(track)@) {
            Ok((value, used)) => {
                &&& result == Ok::<u32, SMFError>(value)
                &&& final(track)@ == old(track)@.skip(used as int)
            },
            Err(error) => {
                &&& result == Err::<u32, SMFError>(error)
                &&& *final(track) == *old(track)
            },
        },
{
    let ghost bytes = track@;
    let mut cursor = *track;
    let mut len: u32 = 0;
    let ghost mut count: int = 0;
    loop
        invariant
            bytes == track@,
            *track == *old(track),
            0 <= count <= bytes.len(),
            cursor@ == bytes.skip(count),
            len == vlq_value(bytes.take(count)),
            forall|i: int| 0 <= i < count ==> bytes[i] >= 0x80,
        decreases bytes.len() - count,
    {
        let val = match cursor.read_u8() {
            Ok(val) => val,
            Err(error) => {
                proof {
                    assert(bytes.take(count) == bytes);
                    lemma_parse_vlq_unterminated(bytes);
                }
                return Err(error);
            },
        };
        proof {
            assert(bytes.take(count + 1).drop_last() == bytes.take(count));
            assert(val & 0x7f == val % 128 && (val & 0x80 == 0 <==> val < 0x80)) by (bit_vector);
        }
        if len > 0x01ff_ffff {
            proof {
                lemma_parse_vlq_overflow(bytes, count + 1);
            }
            return Err(SMFError::VlqOverflow);
        }
        assert(len << 7 == len * 128) by (bit_vector)
            requires
                len <= 0x01ff_ffff,
        ;
        len = (len << 7) + (val & 0x7f) as u32;
        proof {
            count = count + 1;
        }
        if val & 0x80 == 0 {
            proof {
                assert(vlq_ends_at(bytes, count));
                lemma_parse_vlq_terminated(bytes, count);
            }
            *track = cursor;
            return Ok(len);
        }
    }
}

/// The meta event that `bytes` starts with, from its type byte on, and the
/// number of bytes it takes; or why there is none.
pub open spec fn parse_meta_event(bytes: Seq<u8>) -> Result<(MetaEventView, nat), SMFError> {
    if bytes.len() == 0 {
        Err(SMFError::IoError)
    } else {
        match parse_vlq(bytes.skip(1)) {
            Err(error) => Err(error),
            Ok((length, used)) => {
                let start = 1 + used;
                if bytes.len() < start + length {
                    Err(SMFError::IoError)
                } else {
                    match meta_event_of(bytes[0], bytes.subrange(start as int, start + length)) {
                        Ok(event) => Ok((event, start + length as nat)),
                        Err(error) => Err(error),
                    }
                }
            },
        }
    }
}

/// Reads a meta event: type byte, payload length, payload.
pub fn handle_meta_event(track: &mut ByteReader) -> (result: Result<MetaEvent, SMFError>)
    ensures
        match parse_meta_event(old(track)@) {
            Ok((event, used)) => {
                &&& result matches Ok(decoded)
                &&& decoded@ == event
                &&& final(track)@ == old(track)@.skip(used as int)
            },
            Err(error) => {
                &&& result matches Err(e)
                &&& e == error
                &&& *final(track) == *old(track)
            },
        },
{
    let mut cursor = *track;
    let meta_type = cursor.read_u8()?;
    let length = pop_variable_len(&mut cursor)?;
    let mut data = read_vector(&mut cursor, length)?;
    proof {
        let used = parse_vlq(track@.skip(1))->Ok_0.1 as int;
        assert(track@.skip(1).skip(used).take(length as int) == track@.subrange(
            1 + used,
            1 + used + length,
        ));
        assert(track@.skip(1).skip(used).skip(length as int) == track@.skip(
            1 + used + length,
        ));
    }
    let event = create_meta_event(meta_type, &mut data)?;
    *track = cursor;
    Ok(event)
}

/// Reads the data bytes of a channel voice event with the given status.
pub fn handle_midi_event(status_byte: u8, track: &mut ByteReader) -> (result: Result<
    MIDIEvent,
    SMFError,
>)
    ensures
        match parse_midi_event(status_byte, old(track)@) {
            Ok((event, used)) => {
                &&& result matches Ok(decoded)
                &&& decoded@ == event
                &&& final(track)@ == old(track)@.skip(used as int)
            },
            Err(error) => {
                &&& result matches Err(e)
                &&& e == error
                &&& *final(track) == *old(track)
            },
        },
{
    create_midi_event(status_byte, track)
}

/// The status in force for an event whose first byte after the delta time
/// is `first`, where `status` was in force before: `first` itself where it
/// is a status byte, else the running status.
pub open spec fn status_in_force(status: Option<u8>, first: u8) -> Option<u8> {
    if first >= 0x80 {
        Some(first)
    } else {
        status
    }
}

/// The event that `bytes` starts with where `status` is the running
/// status, the status in force after it, and the number of bytes it takes;
/// or why there is none.
pub open spec fn parse_event(status: Option<u8>, bytes: Seq<u8>) -> Result<
    (EventView, Option<u8>, nat),
    SMFError,
> {
    match parse_vlq(bytes) {
        Err(error) => Err(error),
        Ok((delta_time, used)) => if bytes.len() <= used {
            Err(SMFError::IoError)
        } else {
            let current = status_in_force(status, bytes[used as int]);
            let start = if bytes[used as int] >= 0x80 {
                used + 1
            } else {
                used
            };
            match current {
                None => Err(SMFError::UnknownChannelEventType),
                Some(status_byte) => if status_byte == 0xff {
                    match parse_meta_event(bytes.skip(start as int)) {
                        Ok((event, length)) => Ok(
                            (
                                EventView { delta_time, event: EventTypeView::Meta(event) },
                                current,
                                (start + length) as nat,
                            ),
                        ),
                        Err(error) => Err(error),
                    }
                } else if status_byte == 0xf0 || status_byte == 0xf7 {
                    Err(SMFError::UnsupportedSysex)
                } else {
                    match parse_midi_event(status_byte, bytes.skip(start as int)) {
                        Ok((event, length)) => Ok(
                            (
                                EventView { delta_time, event: EventTypeView::MIDI(event) },
                                current,
                                (start + length) as nat,
                            ),
                        ),
                        Err(error) => Err(error),
                    }
                },
            }
        },
    }
}

/// Reads one event: delta time, status byte unless the running status
/// applies, and the event's own bytes. Returns the event and the status in
/// force after it.
pub fn next_event(current_status: Option<u8>, track: &mut ByteReader) -> (result: Result<
    (Event, Option<u8>),
    SMFError,
>)
    ensures
        match parse_event(current_status, old(track)@) {
            Ok((event, status, used)) => {
                &&& result matches Ok((decoded, next_status))
                &&& decoded@ == event
                &&& next_status == status
                &&& final(track)@ == old(track)@.skip(used as int)
            },
            Err(error) => {
                &&& result matches Err(e)
                &&& e == error
                &&& *final(track) == *old(track)
            },
        },
{
    let mut cursor = *track;
    let delta_time = pop_variable_len(&mut cursor)?;
    let tmp_status_byte = match cursor.peek() {
        Some(byte) => byte,
        None => {
            return Err(SMFError::IoError);
        },
    };
    let ghost used = parse_vlq(track@)->Ok_0.1 as int;
    let ghost start = if tmp_status_byte >= 0x80 {
        used + 1
    } else {
        used
    };
    let mut status = current_status;
    if tmp_status_byte >= 0x80 {
        status = Some(cursor.read_u8()?);
    }
    proof {
        assert(tmp_status_byte == track@[used]);
        assert(cursor@ == track@.skip(start));
        assert forall|length: int| 0 <= length <= cursor@.len() implies #[trigger] cursor@.skip(
            length,
        ) == track@.skip(start + length) by {}
    }
    let event = match status {
        None => {
            return Err(SMFError::UnknownChannelEventType);
        },
        Some(0xff) => {
            let me = handle_meta_event(&mut cursor)?;
            let et = EventType::Meta(me);
            Event { delta_time, event: et }
        },
        Some(0xf0) | Some(0xf7) => {
            return Err(SMFError::UnsupportedSysex);
        },
        Some(status_byte) => {
            let me = handle_midi_event(status_byte, &mut cursor)?;
            let et = EventType::MIDI(me);
            Event { delta_time, event: et }
        },
    };
    *track = cursor;
    Ok((event, status))
}

/// An event takes at least one byte and no more than there are.
pub proof fn lemma_parse_event_length(status: Option<u8>, bytes: Seq<u8>)
    ensures
        parse_event(status, bytes) matches Ok((_, _, used)) ==> 0 < used <= bytes.len(),
{
    if parse_vlq(bytes) is Ok {
        let n = choose|n: int| vlq_ends_at(bytes, n);
        assert(vlq_ends_at(bytes, n));
    }
    if parse_event(status, bytes) is Ok {
        let status_byte = parse_event(status, bytes)->Ok_0.1->Some_0;
        let taken = parse_vlq(bytes)->Ok_0.1 as int;
        let start = if bytes[taken] >= 0x80 {
            taken + 1
        } else {
            taken
        };
        if status_byte == 0xff {
            let rest = bytes.skip(start);
            if parse_vlq(rest.skip(1)) is Ok {
                let n = choose|n: int| vlq_ends_at(rest.skip(1), n);
                assert(vlq_ends_at(rest.skip(1), n));
            }
        }
    }
}

/// The events that `bytes` holds, one after the other up to the last
/// byte, where `status` is the running status at the start; or the reason
/// why the first event that cannot be read cannot.
pub open spec fn parse_events_from(status: Option<u8>, bytes: Seq<u8>) -> Result<
    Seq<EventView>,
    SMFError,
>
    decreases bytes.len(),
    via parse_events_from_decreases
{
    if bytes.len() == 0 {
        Ok(Seq::empty())
    } else {
        match parse_event(status, bytes) {
            Err(error) => Err(error),
            Ok((event, next_status, used)) => match parse_events_from(
                next_status,
                bytes.skip(used as int),
            ) {
                Ok(rest) => Ok(seq![event] + rest),
                Err(error) => Err(error),
            },
        }
    }
}

#[via_fn]
proof fn parse_events_from_decreases(status: Option<u8>, bytes: Seq<u8>) {
    lemma_parse_event_length(status, bytes);
}

/// The events of a track whose event data is `bytes`.
pub open spec fn track_events(bytes: Seq<u8>) -> Result<Seq<EventView>, SMFError> {
    parse_events_from(None, bytes)
}

/// Reads the events of a track from its block of event data, up to the
/// block's last byte.
pub fn parse_events(track: &mut ByteReader) -> (result: Result<Vec<Event>, SMFError>)
    ensures
        match track_events(old(track)@) {
            Ok(events) => {
                &&& result matches Ok(decoded)
                &&& event_views(decoded@) == events
                &&& final(track)@.len() == 0
            },
            Err(error) => {
                &&& result matches Err(e)
                &&& e == error
                &&& *final(track) == *old(track)
            },
        },
{
    let mut event_list: Vec<Event> = Vec::new();
    let mut cursor = *track;
    let mut current_status: Option<u8> = None;
    while cursor.remaining() > 0
        invariant
            *track == *old(track),
            track_events(track@) == match parse_events_from(current_status, cursor@) {
                Ok(rest) => Ok::<Seq<EventView>, SMFError>(event_views(event_list@) + rest),
                Err(error) => Err::<Seq<EventView>, SMFError>(error),
            },
        decreases cursor@.len(),
    {
        proof {
            lemma_parse_event_length(current_status, cursor@);
        }
        let ghost before = event_views(event_list@);
        let (event, status) = next_event(current_status, &mut cursor)?;
        proof {
            let rest = parse_events_from(status, cursor@);
            if rest is Ok {
                let events = rest->Ok_0;
                assert(before.push(event@) + events == before + (seq![event@] + events));
            }
        }
        event_list.push(event);
        assert(event_views(event_list@) == before.push(event@));
        current_status = status;
    }
    *track = cursor;
    Ok(event_list)
}

/// The header chunk of a file.
#[derive(Debug, Clone, PartialEq, Eq)]
pub struct FileHeader {
    pub magic: [u8; 4],
    pub length: u32,
    pub format: u16,
    pub num_tracks: u16,
    pub division: u16,
}

/// What a `FileHeader` holds.
pub struct FileHeaderView {
    pub magic: Seq<u8>,
    pub length: u32,
    pub format: u16,
    pub num_tracks: u16,
    pub division: u16,
}

impl View for FileHeader {
    type V = FileHeaderView;

    open spec fn view(&self) -> FileHeaderView {
        FileHeaderView {
            magic: self.magic@,
            length: self.length,
            format: self.format,
            num_tracks: self.num_tracks,
            division: self.division,
        }
    }
}

/// The header of a track chunk.
#[derive(Debug, Clone, PartialEq, Eq)]
pub struct TrackHeader {
    pub magic: [u8; 4],
    pub length: u32,
}

/// What a `TrackHeader` holds.
pub struct TrackHeaderView {
    pub magic: Seq<u8>,
    pub length: u32,
}

impl View for TrackHeader {
    type V = TrackHeaderView;

    open spec fn view(&self) -> TrackHeaderView {
        TrackHeaderView { magic: self.magic@, length: self.length }
    }
}

/// A track: its header and its events in file order.
#[derive(Debug, Clone, PartialEq, Eq)]
pub struct Track {
    pub header: TrackHeader,
    pub events: Vec<Event>,
}

/// What a `Track` holds.
pub struct TrackView {
    pub header: TrackHeaderView,
    pub events: Seq<EventView>,
}

impl View for Track {
    type V = TrackView;

    open spec fn view(&self) -> TrackView {
        TrackView { header: self.header@, events: event_views(self.events@) }
    }
}

/// What each of `tracks` holds, in the same order.
pub open spec fn track_views(tracks: Seq<Track>) -> Seq<TrackView> {
    Seq::new(tracks.len(), |i: int| tracks[i]@)
}

/// A decoded file: its header and its tracks in file order.
#[derive(Debug, Clone, PartialEq, Eq)]
pub struct MIDIFile {
    pub header: FileHeader,
    pub tracks: Vec<Track>,
}

/// What a `MIDIFile` holds.
pub struct MIDIFileView {
    pub header: FileHeaderView,
    pub tracks: Seq<TrackView>,
}

impl View for MIDIFile {
    type V = MIDIFileView;

    open spec fn view(&self) -> MIDIFileView {
        MIDIFileView { header: self.header@, tracks: track_views(self.tracks@) }
    }
}

/// The signature of the header chunk, `MThd`.
pub open spec fn file_magic() -> Seq<u8> {
    seq![0x4du8, 0x54u8, 0x68u8, 0x64u8]
}

/// The signature of a track chunk, `MTrk`.
pub open spec fn track_magic() -> Seq<u8> {
    seq![0x4du8, 0x54u8, 0x72u8, 0x6bu8]
}

/// The file header that `bytes` starts with and the number of bytes it
/// takes, or why there is none.
pub open spec fn parse_file_header(bytes: Seq<u8>) -> Result<(FileHeaderView, nat), SMFError> {
    if bytes.len() < 4 {
        Err(SMFError::IoError)
    } else if bytes.take(4) != file_magic() {
        Err(SMFError::MagicMismatch)
    } else if bytes.len() < 8 {
        Err(SMFError::IoError)
    } else if big_endian_value(bytes.subrange(4, 8)) != 6 {
        Err(SMFError::HeaderLengthMismatch)
    } else if bytes.len() < 14 {
        Err(SMFError::IoError)
    } else {
        Ok(
            (
                FileHeaderView {
                    magic: file_magic(),
                    length: 6,
                    format: big_endian_value(bytes.subrange(8, 10)) as u16,
                    num_tracks: big_endian_value(bytes.subrange(10, 12)) as u16,
                    division: big_endian_value(bytes.subrange(12, 14)) as u16,
                },
                14,
            ),
        )
    }
}

/// Reads the header chunk of a file.
pub fn read_file_header(reader: &mut ByteReader) -> (result: Result<FileHeader, SMFError>)
    ensures
        match parse_file_header(old(reader)@) {
            Ok((header, used)) => {
                &&& result matches Ok(decoded)
                &&& decoded@ == header
                &&& final(reader)@ == old(reader)@.skip(used as int)
            },
            Err(error) => {
                &&& result matches Err(e)
                &&& e == error
                &&& *final(reader) == *old(reader)
            },
        },
{
    let ghost bytes = reader@;
    let mut cursor = *reader;
    let mut magic = [0u8; 4];
    read_all(&mut cursor, &mut magic)?;
    if magic[0] != 0x4d || magic[1] != 0x54 || magic[2] != 0x68 || magic[3] != 0x64 {
        assert(bytes.take(4)[0] == magic[0] && bytes.take(4)[1] == magic[1] && bytes.take(4)[2]
            == magic[2] && bytes.take(4)[3] == magic[3]);
        return Err(SMFError::MagicMismatch);
    }
    assert(bytes.take(4) == file_magic());
    let length = read_big_endian_u32(&mut cursor)?;
    proof {
        assert(bytes.skip(4).take(4) == bytes.subrange(4, 8));
        lemma_big_endian_bound(bytes.subrange(4, 8));
    }
    if length != 6 {
        return Err(SMFError::HeaderLengthMismatch);
    }
    let format = read_big_endian_u16(&mut cursor)?;
    let num_tracks = read_big_endian_u16(&mut cursor)?;
    let division = read_big_endian_u16(&mut cursor)?;
    proof {
        assert(bytes.skip(4).skip(4).take(2) == bytes.subrange(8, 10));
        assert(bytes.skip(4).skip(4).skip(2).take(2) == bytes.subrange(10, 12));
        assert(bytes.skip(4).skip(4).skip(2).skip(2).take(2) == bytes.subrange(12, 14));
        assert(bytes.skip(4).skip(4).skip(2).skip(2).skip(2) == bytes.skip(14));
    }
    let header = FileHeader { magic, length, format, num_tracks, division };
    *reader = cursor;
    Ok(header)
}

/// The track header that `bytes` starts with and the number of bytes it
/// takes, or why there is none.
pub open spec fn parse_track_header(bytes: Seq<u8>) -> Result<(TrackHeaderView, nat), SMFError> {
    if bytes.len() < 4 {
        Err(SMFError::IoError)
    } else if bytes.take(4) != track_magic() {
        Err(SMFError::MagicMismatch)
    } else if bytes.len() < 8 {
        Err(SMFError::IoError)
    } else {
        Ok(
            (
                TrackHeaderView {
                    magic: track_magic(),
                    length: big_endian_value(bytes.subrange(4, 8)) as u32,
                },
                8,
            ),
        )
    }
}

/// Reads the header of a track chunk.
pub fn read_track_header(reader: &mut ByteReader) -> (result: Result<TrackHeader, SMFError>)
    ensures
        match parse_track_header(old(reader)@) {
            Ok((header, used)) => {
                &&& result matches Ok(decoded)
                &&& decoded@ == header
                &&& final(reader)@ == old(reader)@.skip(used as int)
            },
            Err(error) => {
                &&& result matches Err(e)
                &&& e == error
                &&& *final(reader) == *old(reader)
            },
        },
{
    let ghost bytes = reader@;
    let mut cursor = *reader;
    let mut magic = [0u8; 4];
    read_all(&mut cursor, &mut magic)?;
    if magic[0] != 0x4d || magic[1] != 0x54 || magic[2] != 0x72 || magic[3] != 0x6b {
        assert(bytes.take(4)[0] == magic[0] && bytes.take(4)[1] == magic[1] && bytes.take(4)[2]
            == magic[2] && bytes.take(4)[3] == magic[3]);
        return Err(SMFError::MagicMismatch);
    }
    assert(bytes.take(4) == track_magic());
    let length = read_big_endian_u32(&mut cursor)?;
    proof {
        assert(bytes.skip(4).take(4) == bytes.subrange(4, 8));
        assert(bytes.skip(4).skip(4) == bytes.skip(8));
    }
    let header = TrackHeader { magic, length };
    *reader = cursor;
    Ok(header)
}

/// The track chunk that `bytes` starts with and the number of bytes it
/// takes, or why there is none. The chunk's events fill its declared
/// length exactly.
#[verifier::opaque]
pub open spec fn parse_track(bytes: Seq<u8>) -> Result<(TrackView, nat), SMFError> {
    match parse_track_header(bytes) {
        Err(error) => Err(error),
        Ok((header, used)) => if bytes.len() < used + header.length {
            Err(SMFError::IoError)
        } else {
            match track_events(bytes.subrange(used as int, used + header.length)) {
                Ok(events) => Ok((TrackView { header, events }, (used + header.length) as nat)),
                Err(error) => Err(error),
            }
        },
    }
}

/// Reads a track chunk: its header, then its block of event data, which
/// is decoded on its own.
pub fn read_track(reader: &mut ByteReader) -> (result: Result<Track, SMFError>)
    ensures
        match parse_track(old(reader)@) {
            Ok((track, used)) => {
                &&& result matches Ok(decoded)
                &&& decoded@ == track
                &&& final(reader)@ == old(reader)@.skip(used as int)
            },
            Err(error) => {
                &&& result matches Err(e)
                &&& e == error
                &&& *final(reader) == *old(reader)
            },
        },
{
    reveal(parse_track);
    let ghost bytes = reader@;
    let mut cursor = *reader;
    let track_header = read_track_header(&mut cursor)?;
    let track = read_vector(&mut cursor, track_header.length)?;
    proof {
        assert(bytes.skip(8).take(track_header.length as int) == bytes.subrange(
            8,
            8 + track_header.length,
        ));
        assert(bytes.skip(8).skip(track_header.length as int) == bytes.skip(
            8 + track_header.length,
        ));
    }
    let mut block = ByteReader::new(track.as_slice());
    let event_list = parse_events(&mut block)?;
    let parsed_track = Track { header: track_header, events: event_list };
    *reader = cursor;
    Ok(parsed_track)
}

/// The `count` track chunks that `bytes` starts with, one after the
/// other, and the number of bytes they take; or the reason why the first
/// chunk that cannot be read cannot.
pub open spec fn parse_tracks(bytes: Seq<u8>, count: nat) -> Result<(Seq<TrackView>, nat), SMFError>
    decreases count,
{
    if count == 0 {
        Ok((Seq::empty(), 0))
    } else {
        match parse_track(bytes) {
            Err(error) => Err(error),
            Ok((track, used)) => match parse_tracks(bytes.skip(used as int), (count - 1) as nat) {
                Ok((rest, more)) => Ok((seq![track] + rest, used + more)),
                Err(error) => Err(error),
            },
        }
    }
}

/// The file that `bytes` starts with and the number of bytes it takes, or
/// why there is none. What follows the last declared track is not looked
/// at.
pub open spec fn parse_file(bytes: Seq<u8>) -> Result<(MIDIFileView, nat), SMFError> {
    match parse_file_header(bytes) {
        Err(error) => Err(error),
        Ok((header, used)) => match parse_tracks(
            bytes.skip(used as int),
            header.num_tracks as nat,
        ) {
            Ok((tracks, more)) => Ok((MIDIFileView { header, tracks }, used + more)),
            Err(error) => Err(error),
        },
    }
}

/// Reads a Standard MIDI File: the header chunk, then as many track
/// chunks as the header declares.
pub fn read_file(reader: &mut ByteReader) -> (result: Result<MIDIFile, SMFError>)
    ensures
        match parse_file(old(reader)@) {
            Ok((file, used)) => {
                &&& result matches Ok(decoded)
                &&& decoded@ == file
                &&& final(reader)@ == old(reader)@.skip(used as int)
            },
            Err(error) => {
                &&& result matches Err(e)
                &&& e == error
                &&& *final(reader) == *old(reader)
            },
        },
{
    let ghost bytes = reader@;
    let mut cursor = *reader;
    let file_header = read_file_header(&mut cursor)?;
    let mut tracks: Vec<Track> = Vec::new();
    let mut done: u16 = 0;
    let ghost mut used: int = 0;
    while done < file_header.num_tracks
        invariant
            *reader == *old(reader),
            bytes == reader@,
            parse_file_header(bytes) == Ok::<(FileHeaderView, nat), SMFError>((file_header@, 14)),
            done <= file_header.num_tracks,
            0 <= used <= bytes.skip(14).len(),
            cursor@ == bytes.skip(14).skip(used),
            parse_tracks(bytes.skip(14), file_header.num_tracks as nat) == match parse_tracks(
                cursor@,
                (file_header.num_tracks - done) as nat,
            ) {
                Ok((rest, more)) => Ok::<(Seq<TrackView>, nat), SMFError>(
                    (track_views(tracks@) + rest, (used + more) as nat),
                ),
                Err(error) => Err::<(Seq<TrackView>, nat), SMFError>(error),
            },
        decreases file_header.num_tracks - done,
    {
        let ghost before = track_views(tracks@);
        let ghost here = cursor@;
        let parsed_track = read_track(&mut cursor)?;
        proof {
            lemma_parse_track_length(here);
            let taken = parse_track(here)->Ok_0.1 as int;
            let rest = parse_tracks(cursor@, (file_header.num_tracks - done - 1) as nat);
            if rest is Ok {
                let later = rest->Ok_0.0;
                assert(before.push(parsed_track@) + later == before + (seq![parsed_track@]
                    + later));
            }
            assert(bytes.skip(14).skip(used).skip(taken) == bytes.skip(14).skip(used + taken));
            used = used + taken;
        }
        tracks.push(parsed_track);
        assert(track_views(tracks@) == before.push(parsed_track@));
        done = done + 1;
    }
    proof {
        assert(bytes.skip(14).skip(used) == bytes.skip(14 + used));
    }
    *reader = cursor;
    Ok(MIDIFile { header: file_header, tracks })
}

/// A track chunk takes no more bytes than there are.
pub proof fn lemma_parse_track_length(bytes: Seq<u8>)
    ensures
        parse_track(bytes) matches Ok((_, used)) ==> 8 <= used <= bytes.len(),
{
    reveal(parse_track);
}

/// Bytes that do not start with the header signature are rejected for
/// their signature, whatever follows.
pub proof fn lemma_wrong_signature_rejected(bytes: Seq<u8>)
    requires
        bytes.len() >= 4,
        bytes.take(4) != file_magic(),
    ensures
        parse_file(bytes) == Err::<(MIDIFileView, nat), SMFError>(SMFError::MagicMismatch),
{
}

/// A header that declares a length other than 6 is rejected for its
/// length, whatever follows.
pub proof fn lemma_wrong_header_length_rejected(bytes: Seq<u8>)
    requires
        bytes.len() >= 8,
        bytes.take(4) == file_magic(),
        big_endian_value(bytes.subrange(4, 8)) != 6,
    ensures
        parse_file(bytes) == Err::<(MIDIFileView, nat), SMFError>(SMFError::HeaderLengthMismatch),
{
}

/// Bytes that end inside the header are rejected: for running out, unless
/// the part that is there already shows a wrong signature or a wrong
/// length.
pub proof fn lemma_truncated_header_rejected(bytes: Seq<u8>)
    requires
        bytes.len() < 14,
    ensures
        parse_file(bytes) is Err,
        parse_file(bytes) == Err::<(MIDIFileView, nat), SMFError>(SMFError::IoError) <==> {
            &&& bytes.len() >= 4 ==> bytes.take(4) == file_magic()
            &&& bytes.len() >= 8 ==> big_endian_value(bytes.subrange(4, 8)) == 6
        },
{
}

} // verus!
