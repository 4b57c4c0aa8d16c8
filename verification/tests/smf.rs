use midifile::events::{
    Event, EventType, MIDIEvent, MIDIEventData, MIDIEventGenericData, MIDIEventNoteOn,
    MIDIEventType, MetaEvent, MetaEventData, MetaEventGenericData, MetaEventGenericText,
    MetaEventTempo, MetaEventType,
};
use midifile::smf::{
    handle_meta_event, handle_midi_event, next_event, parse_events, read_file, read_file_header,
    read_track, read_track_header, FileHeader, MIDIFile, SMFError, Track, TrackHeader,
};
use midifile::utils::ByteReader;

fn events_of(block: &[u8]) -> Result<Vec<Event>, SMFError> {
    let mut reader = ByteReader::new(block);
    parse_events(&mut reader)
}

fn file_of(bytes: &[u8]) -> Result<MIDIFile, SMFError> {
    let mut reader = ByteReader::new(bytes);
    read_file(&mut reader)
}

fn note_on(delta_time: u32, channel: u8, number: u8, velocity: u8, name: &str) -> Event {
    Event {
        delta_time,
        event: EventType::MIDI(MIDIEvent {
            status: MIDIEventType::NoteOn,
            channel,
            data: MIDIEventData::NoteOn(MIDIEventNoteOn {
                number,
                velocity,
                note_name: String::from(name),
            }),
        }),
    }
}

fn end_of_track(delta_time: u32) -> Event {
    Event {
        delta_time,
        event: EventType::Meta(MetaEvent {
            event_type: MetaEventType::EndOfTrack,
            event_data: MetaEventData::GenericData(MetaEventGenericData { data: vec![] }),
        }),
    }
}

fn tempo(delta_time: u32, ms_per_quarter_note: u32) -> Event {
    Event {
        delta_time,
        event: EventType::Meta(MetaEvent {
            event_type: MetaEventType::Tempo,
            event_data: MetaEventData::Tempo(MetaEventTempo {
                ms_per_quarter_note,
                bpm_whole: 60_000_000 / ms_per_quarter_note,
                bpm_remainder: 60_000_000 % ms_per_quarter_note,
            }),
        }),
    }
}

fn header_bytes(format: u16, tracks: u16, division: u16) -> Vec<u8> {
    let mut bytes = vec![0x4d, 0x54, 0x68, 0x64, 0, 0, 0, 6];
    bytes.extend_from_slice(&format.to_be_bytes());
    bytes.extend_from_slice(&tracks.to_be_bytes());
    bytes.extend_from_slice(&division.to_be_bytes());
    bytes
}

fn track_bytes(block: &[u8]) -> Vec<u8> {
    let mut bytes = vec![0x4d, 0x54, 0x72, 0x6b];
    bytes.extend_from_slice(&(block.len() as u32).to_be_bytes());
    bytes.extend_from_slice(block);
    bytes
}

#[test]
fn running_status_gives_two_note_on_events() {
    let events = events_of(&[0x00, 0x90, 0x40, 0x7f, 0x00, 0x3c, 0x50]).unwrap();
    assert_eq!(
        events,
        vec![note_on(0, 0, 0x40, 0x7f, "E-4"), note_on(0, 0, 0x3c, 0x50, "C-4")]
    );
}

#[test]
fn running_status_keeps_channel_and_delta_times() {
    let events = events_of(&[0x10, 0x95, 0x40, 0x7f, 0x81, 0x00, 0x41, 0x00, 0x05, 0x42, 0x01])
        .unwrap();
    assert_eq!(
        events,
        vec![
            note_on(16, 5, 0x40, 0x7f, "E-4"),
            note_on(128, 5, 0x41, 0x00, "F-4"),
            note_on(5, 5, 0x42, 0x01, "F#-4"),
        ]
    );
}

#[test]
fn explicit_status_replaces_running_status() {
    let events = events_of(&[0x00, 0x90, 0x40, 0x7f, 0x00, 0xc1, 0x05, 0x00, 0x06]).unwrap();
    assert_eq!(events.len(), 3);
    assert_eq!(events[0], note_on(0, 0, 0x40, 0x7f, "E-4"));
    let program = |data0: u8| Event {
        delta_time: 0,
        event: EventType::MIDI(MIDIEvent {
            status: MIDIEventType::ProgramChange,
            channel: 1,
            data: MIDIEventData::GenericData(MIDIEventGenericData { data0, data1: 0 }),
        }),
    };
    assert_eq!(events[1], program(5));
    assert_eq!(events[2], program(6));
}

#[test]
fn empty_block_has_no_events() {
    assert_eq!(events_of(&[]), Ok(vec![]));
}

#[test]
fn data_byte_before_any_status_is_rejected() {
    assert_eq!(events_of(&[0x00, 0x40, 0x7f]), Err(SMFError::UnknownChannelEventType));
}

#[test]
fn sysex_stops_the_track_with_an_error() {
    assert_eq!(events_of(&[0x00, 0xf0, 0x01, 0xf7]), Err(SMFError::UnsupportedSysex));
    assert_eq!(events_of(&[0x00, 0xf7, 0x00]), Err(SMFError::UnsupportedSysex));
    assert_eq!(
        events_of(&[0x00, 0x90, 0x40, 0x7f, 0x00, 0xf0, 0x00]),
        Err(SMFError::UnsupportedSysex)
    );
}

#[test]
fn other_system_status_bytes_are_unknown_channel_events() {
    assert_eq!(events_of(&[0x00, 0xf1, 0x00]), Err(SMFError::UnknownChannelEventType));
    assert_eq!(events_of(&[0x00, 0xfe]), Err(SMFError::UnknownChannelEventType));
}

#[test]
fn block_ending_inside_an_event_is_io_error() {
    assert_eq!(events_of(&[0x00]), Err(SMFError::IoError));
    assert_eq!(events_of(&[0x81]), Err(SMFError::IoError));
    assert_eq!(events_of(&[0x00, 0x90, 0x40]), Err(SMFError::IoError));
    assert_eq!(events_of(&[0x00, 0xff]), Err(SMFError::IoError));
    assert_eq!(events_of(&[0x00, 0xff, 0x51]), Err(SMFError::IoError));
    assert_eq!(events_of(&[0x00, 0xff, 0x51, 0x03, 0x07, 0xa1]), Err(SMFError::IoError));
    assert_eq!(events_of(&[0x00, 0x90, 0x40, 0x7f, 0x00]), Err(SMFError::IoError));
}

#[test]
fn failed_parse_leaves_reader_where_it_was() {
    let block = [0x00, 0x90, 0x40, 0x7f, 0x00, 0x3c];
    let mut reader = ByteReader::new(&block);
    assert_eq!(parse_events(&mut reader), Err(SMFError::IoError));
    assert_eq!(reader.remaining(), 6);
}

#[test]
fn successful_parse_consumes_the_block() {
    let block = [0x00, 0x90, 0x40, 0x7f];
    let mut reader = ByteReader::new(&block);
    assert_eq!(parse_events(&mut reader).unwrap().len(), 1);
    assert_eq!(reader.remaining(), 0);
}

#[test]
fn delta_time_overflow_is_reported() {
    assert_eq!(
        events_of(&[0xff, 0xff, 0xff, 0xff, 0x7f, 0x90, 0x40, 0x7f]),
        Err(SMFError::VlqOverflow)
    );
}

#[test]
fn errors_inside_meta_events_are_propagated() {
    assert_eq!(events_of(&[0x00, 0xff, 0x7f, 0x00]), Err(SMFError::UnknownMetaEventType));
    assert_eq!(events_of(&[0x00, 0xff, 0x01, 0x01, 0xff]), Err(SMFError::InvalidUtf8Text));
    assert_eq!(
        events_of(&[0x00, 0xff, 0x51, 0x02, 0x07, 0xa1]),
        Err(SMFError::MalformedPayloadLength)
    );
    assert_eq!(
        events_of(&[0x00, 0xff, 0x51, 0x03, 0x00, 0x00, 0x00]),
        Err(SMFError::MalformedPayloadValue)
    );
    assert_eq!(
        events_of(&[0x00, 0xff, 0x59, 0x02, 0x08, 0x00]),
        Err(SMFError::UnknownKeySignature)
    );
    assert_eq!(
        events_of(&[0x00, 0xff, 0x01, 0xff, 0xff, 0xff, 0xff, 0x7f]),
        Err(SMFError::VlqOverflow)
    );
}

#[test]
fn meta_event_reads_type_length_and_payload() {
    let bytes = [0x03, 0x05, 0x50, 0x69, 0x61, 0x6e, 0x6f, 0x00];
    let mut reader = ByteReader::new(&bytes);
    assert_eq!(
        handle_meta_event(&mut reader),
        Ok(MetaEvent {
            event_type: MetaEventType::TrackName,
            event_data: MetaEventData::GenericText(MetaEventGenericText {
                str: String::from("Piano"),
            }),
        })
    );
    assert_eq!(reader.remaining(), 1);
}

#[test]
fn meta_event_with_two_byte_length() {
    let mut bytes = vec![0x06, 0x81, 0x00];
    bytes.extend_from_slice(&[0xaa; 128]);
    bytes.push(0x55);
    let mut reader = ByteReader::new(&bytes);
    assert_eq!(
        handle_meta_event(&mut reader),
        Ok(MetaEvent {
            event_type: MetaEventType::Marker,
            event_data: MetaEventData::GenericData(MetaEventGenericData { data: vec![0xaa; 128] }),
        })
    );
    assert_eq!(reader.remaining(), 1);
}

#[test]
fn meta_event_cut_short_consumes_nothing() {
    let bytes = [0x03, 0x05, 0x50, 0x69];
    let mut reader = ByteReader::new(&bytes);
    assert_eq!(handle_meta_event(&mut reader), Err(SMFError::IoError));
    assert_eq!(reader.remaining(), 4);
}

#[test]
fn meta_event_payload_is_read_before_type_is_judged() {
    let bytes = [0x7f, 0x05, 0x50];
    let mut reader = ByteReader::new(&bytes);
    assert_eq!(handle_meta_event(&mut reader), Err(SMFError::IoError));
    let bytes = [0x7f, 0x01, 0x50];
    let mut reader = ByteReader::new(&bytes);
    assert_eq!(handle_meta_event(&mut reader), Err(SMFError::UnknownMetaEventType));
    assert_eq!(reader.remaining(), 3);
}

#[test]
fn midi_event_handler_reads_data_bytes() {
    let bytes = [0x07, 0x64, 0x00];
    let mut reader = ByteReader::new(&bytes);
    assert_eq!(
        handle_midi_event(0xb2, &mut reader),
        Ok(MIDIEvent {
            status: MIDIEventType::ControlOrModeChange,
            channel: 2,
            data: MIDIEventData::GenericData(MIDIEventGenericData { data0: 7, data1: 100 }),
        })
    );
    assert_eq!(reader.remaining(), 1);
}

#[test]
fn next_event_returns_status_in_force() {
    let bytes = [0x00, 0x90, 0x40, 0x7f, 0x00, 0x3c, 0x50];
    let mut reader = ByteReader::new(&bytes);
    let (first, status) = next_event(None, &mut reader).unwrap();
    assert_eq!(first, note_on(0, 0, 0x40, 0x7f, "E-4"));
    assert_eq!(status, Some(0x90));
    assert_eq!(reader.remaining(), 3);
    let (second, status) = next_event(status, &mut reader).unwrap();
    assert_eq!(second, note_on(0, 0, 0x3c, 0x50, "C-4"));
    assert_eq!(status, Some(0x90));
    assert_eq!(reader.remaining(), 0);
}

#[test]
fn file_header_is_decoded() {
    let mut bytes = header_bytes(1, 2, 480);
    bytes.push(0xaa);
    let mut reader = ByteReader::new(&bytes);
    assert_eq!(
        read_file_header(&mut reader),
        Ok(FileHeader {
            magic: [0x4d, 0x54, 0x68, 0x64],
            length: 6,
            format: 1,
            num_tracks: 2,
            division: 480,
        })
    );
    assert_eq!(reader.remaining(), 1);
}

#[test]
fn file_with_wrong_signature_is_magic_mismatch() {
    let mut bytes = header_bytes(0, 1, 96);
    bytes[3] = 0x65;
    assert_eq!(file_of(&bytes), Err(SMFError::MagicMismatch));
    assert_eq!(file_of(&[0x52, 0x49, 0x46, 0x46]), Err(SMFError::MagicMismatch));
    assert_eq!(file_of(&track_bytes(&[])), Err(SMFError::MagicMismatch));
}

#[test]
fn file_with_wrong_header_length_is_header_length_mismatch() {
    let mut bytes = header_bytes(0, 1, 96);
    bytes[7] = 7;
    assert_eq!(file_of(&bytes), Err(SMFError::HeaderLengthMismatch));
    bytes[7] = 6;
    bytes[4] = 1;
    assert_eq!(file_of(&bytes), Err(SMFError::HeaderLengthMismatch));
    assert_eq!(
        file_of(&[0x4d, 0x54, 0x68, 0x64, 0, 0, 0, 0]),
        Err(SMFError::HeaderLengthMismatch)
    );
}

#[test]
fn file_cut_inside_header_is_io_error() {
    let bytes = header_bytes(0, 0, 96);
    for length in 0..bytes.len() {
        let mut reader = ByteReader::new(&bytes[..length]);
        assert_eq!(read_file(&mut reader), Err(SMFError::IoError));
        assert_eq!(reader.remaining(), length);
    }
    assert!(file_of(&bytes).is_ok());
}

#[test]
fn track_header_is_decoded() {
    let bytes = [0x4d, 0x54, 0x72, 0x6b, 0x00, 0x01, 0x02, 0x03, 0xff];
    let mut reader = ByteReader::new(&bytes);
    assert_eq!(
        read_track_header(&mut reader),
        Ok(TrackHeader { magic: [0x4d, 0x54, 0x72, 0x6b], length: 0x0001_0203 })
    );
    assert_eq!(reader.remaining(), 1);
}

#[test]
fn track_header_errors() {
    let bytes = [0x4d, 0x54, 0x68, 0x64, 0, 0, 0, 0];
    let mut reader = ByteReader::new(&bytes);
    assert_eq!(read_track_header(&mut reader), Err(SMFError::MagicMismatch));
    assert_eq!(reader.remaining(), 8);
    let bytes = [0x4d, 0x54, 0x72];
    let mut reader = ByteReader::new(&bytes);
    assert_eq!(read_track_header(&mut reader), Err(SMFError::IoError));
    let bytes = [0x4d, 0x54, 0x72, 0x6b, 0, 0, 0];
    let mut reader = ByteReader::new(&bytes);
    assert_eq!(read_track_header(&mut reader), Err(SMFError::IoError));
    assert_eq!(reader.remaining(), 7);
}

#[test]
fn track_takes_exactly_its_declared_length() {
    let mut bytes = track_bytes(&[0x00, 0x90, 0x40, 0x7f]);
    bytes.extend_from_slice(&[0x00, 0x3c, 0x50]);
    let mut reader = ByteReader::new(&bytes);
    assert_eq!(
        read_track(&mut reader),
        Ok(Track {
            header: TrackHeader { magic: [0x4d, 0x54, 0x72, 0x6b], length: 4 },
            events: vec![note_on(0, 0, 0x40, 0x7f, "E-4")],
        })
    );
    assert_eq!(reader.remaining(), 3);
}

#[test]
fn track_shorter_than_declared_is_io_error() {
    let mut bytes = track_bytes(&[0x00, 0x90, 0x40, 0x7f]);
    bytes.pop();
    let mut reader = ByteReader::new(&bytes);
    assert_eq!(read_track(&mut reader), Err(SMFError::IoError));
    assert_eq!(reader.remaining(), bytes.len());
}

#[test]
fn track_whose_length_cuts_an_event_is_io_error() {
    let mut bytes = track_bytes(&[0x00, 0x90, 0x40]);
    bytes.push(0x7f);
    let mut reader = ByteReader::new(&bytes);
    assert_eq!(read_track(&mut reader), Err(SMFError::IoError));
}

#[test]
fn minimal_file_with_tempo_and_end_of_track() {
    let mut bytes = header_bytes(0, 1, 96);
    bytes.extend_from_slice(&track_bytes(&[
        0x00, 0xff, 0x51, 0x03, 0x07, 0xa1, 0x20, 0x00, 0xff, 0x2f, 0x00,
    ]));
    let file = file_of(&bytes).unwrap();
    assert_eq!(
        file.header,
        FileHeader {
            magic: [0x4d, 0x54, 0x68, 0x64],
            length: 6,
            format: 0,
            num_tracks: 1,
            division: 96,
        }
    );
    assert_eq!(file.tracks.len(), 1);
    assert_eq!(file.tracks[0].header, TrackHeader { magic: [0x4d, 0x54, 0x72, 0x6b], length: 11 });
    assert_eq!(file.tracks[0].events.len(), 2);
    assert_eq!(file.tracks[0].events, vec![tempo(0, 500_000), end_of_track(0)]);
}

#[test]
fn file_without_tracks() {
    let bytes = header_bytes(1, 0, 96);
    let file = file_of(&bytes).unwrap();
    assert_eq!(file.tracks, vec![]);
}

#[test]
fn file_with_several_tracks_keeps_file_order() {
    let mut bytes = header_bytes(1, 3, 480);
    bytes.extend_from_slice(&track_bytes(&[0x00, 0xff, 0x2f, 0x00]));
    bytes.extend_from_slice(&track_bytes(&[]));
    bytes.extend_from_slice(&track_bytes(&[
        0x00, 0x90, 0x40, 0x7f, 0x60, 0x40, 0x00, 0x00, 0xff, 0x2f, 0x00,
    ]));
    let file = file_of(&bytes).unwrap();
    assert_eq!(file.tracks.len(), 3);
    assert_eq!(file.tracks[0].events, vec![end_of_track(0)]);
    assert_eq!(file.tracks[1].events, vec![]);
    assert_eq!(
        file.tracks[2].events,
        vec![note_on(0, 0, 0x40, 0x7f, "E-4"), note_on(0x60, 0, 0x40, 0x00, "E-4"), end_of_track(0)]
    );
}

#[test]
fn running_status_does_not_cross_tracks() {
    let mut bytes = header_bytes(1, 2, 480);
    bytes.extend_from_slice(&track_bytes(&[0x00, 0x90, 0x40, 0x7f]));
    bytes.extend_from_slice(&track_bytes(&[0x00, 0x40, 0x00]));
    assert_eq!(file_of(&bytes), Err(SMFError::UnknownChannelEventType));
}

#[test]
fn bytes_after_the_last_track_are_left_unread() {
    let mut bytes = header_bytes(0, 1, 96);
    bytes.extend_from_slice(&track_bytes(&[0x00, 0xff, 0x2f, 0x00]));
    bytes.extend_from_slice(&[0xde, 0xad]);
    let mut reader = ByteReader::new(&bytes);
    assert!(read_file(&mut reader).is_ok());
    assert_eq!(reader.remaining(), 2);
}

#[test]
fn file_declaring_more_tracks_than_it_holds_is_io_error() {
    let mut bytes = header_bytes(1, 2, 96);
    bytes.extend_from_slice(&track_bytes(&[0x00, 0xff, 0x2f, 0x00]));
    let mut reader = ByteReader::new(&bytes);
    assert_eq!(read_file(&mut reader), Err(SMFError::IoError));
    assert_eq!(reader.remaining(), bytes.len());
}

#[test]
fn file_with_bad_track_signature_is_magic_mismatch() {
    let mut bytes = header_bytes(0, 1, 96);
    bytes.extend_from_slice(&header_bytes(0, 1, 96));
    assert_eq!(file_of(&bytes), Err(SMFError::MagicMismatch));
}

#[test]
fn file_with_sysex_fails_as_a_whole() {
    let mut bytes = header_bytes(0, 1, 96);
    bytes.extend_from_slice(&track_bytes(&[0x00, 0x90, 0x40, 0x7f, 0x00, 0xf0, 0x01, 0xf7]));
    assert_eq!(file_of(&bytes), Err(SMFError::UnsupportedSysex));
}
