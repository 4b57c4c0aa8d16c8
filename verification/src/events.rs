//! The events of a track: channel voice events and meta events, the tables
//! that give their kinds, and the decoders that build them from bytes.

use crate::smf::SMFError;
use crate::utils::{big_endian_value, vector_to_big_endian_u32, ByteReader};
use vstd::arithmetic::power2::{lemma2_to64, pow2};
use vstd::bits::lemma_u8_shl_is_mul;
use vstd::prelude::*;
use vstd::utf8::{decode_utf8, encode_utf8, encode_utf8_decode_utf8, valid_utf8};

verus! {

/// The kinds of meta event the decoder recognises.
#[derive(Debug, Clone, Copy, PartialEq, Eq, Structural)]
pub enum MetaEventType {
    SequenceNumber,
    Text,
    Copyright,
    TrackName,
    Instrument,
    Lyric,
    Marker,
    CuePoint,
    MIDIChannel,
    MIDIPort,
    EndOfTrack,
    Tempo,
    SMPTEOffset,
    TimeSignature,
    KeySignature,
}

impl MetaEventType {
    /// The type byte that stands for this kind in a file.
    pub open spec fn spec_code(self) -> u8 {
        match self {
            MetaEventType::SequenceNumber => 0x00,
            MetaEventType::Text => 0x01,
            MetaEventType::Copyright => 0x02,
            MetaEventType::TrackName => 0x03,
            MetaEventType::Instrument => 0x04,
            MetaEventType::Lyric => 0x05,
            MetaEventType::Marker => 0x06,
            MetaEventType::CuePoint => 0x07,
            MetaEventType::MIDIChannel => 0x20,
            MetaEventType::MIDIPort => 0x21,
            MetaEventType::EndOfTrack => 0x2f,
            MetaEventType::Tempo => 0x51,
            MetaEventType::SMPTEOffset => 0x54,
            MetaEventType::TimeSignature => 0x58,
            MetaEventType::KeySignature => 0x59,
        }
    }

    /// The type byte that stands for this kind in a file.
    #[verifier::when_used_as_spec(spec_code)]
    pub fn code(self) -> (code: u8)
        ensures
            code == self.spec_code(),
    {
        match self {
            MetaEventType::SequenceNumber => 0x00,
            MetaEventType::Text => 0x01,
            MetaEventType::Copyright => 0x02,
            MetaEventType::TrackName => 0x03,
            MetaEventType::Instrument => 0x04,
            MetaEventType::Lyric => 0x05,
            MetaEventType::Marker => 0x06,
            MetaEventType::CuePoint => 0x07,
            MetaEventType::MIDIChannel => 0x20,
            MetaEventType::MIDIPort => 0x21,
            MetaEventType::EndOfTrack => 0x2f,
            MetaEventType::Tempo => 0x51,
            MetaEventType::SMPTEOffset => 0x54,
            MetaEventType::TimeSignature => 0x58,
            MetaEventType::KeySignature => 0x59,
        }
    }
}

/// The kind of meta event that a type byte stands for, if any.
pub open spec fn meta_event_type_of(meta_type: u8) -> Option<MetaEventType> {
    match meta_type {
        0x00 => Some(MetaEventType::SequenceNumber),
        0x01 => Some(MetaEventType::Text),
        0x02 => Some(MetaEventType::Copyright),
        0x03 => Some(MetaEventType::TrackName),
        0x04 => Some(MetaEventType::Instrument),
        0x05 => Some(MetaEventType::Lyric),
        0x06 => Some(MetaEventType::Marker),
        0x07 => Some(MetaEventType::CuePoint),
        0x20 => Some(MetaEventType::MIDIChannel),
        0x21 => Some(MetaEventType::MIDIPort),
        0x2f => Some(MetaEventType::EndOfTrack),
        0x51 => Some(MetaEventType::Tempo),
        0x54 => Some(MetaEventType::SMPTEOffset),
        0x58 => Some(MetaEventType::TimeSignature),
        0x59 => Some(MetaEventType::KeySignature),
        _ => None,
    }
}

/// Decoding a type byte and taking the kind's type byte undo each other.
pub proof fn lemma_meta_event_type_codes(kind: MetaEventType, meta_type: u8)
    ensures
        meta_event_type_of(kind.spec_code()) == Some(kind),
        meta_event_type_of(meta_type) == Some(kind) ==> kind.spec_code() == meta_type,
{
}

/// The kind of meta event that a type byte stands for.
pub fn u8_to_meta_event_type(meta_type: u8) -> (result: Result<MetaEventType, SMFError>)
    ensures
        result == match meta_event_type_of(meta_type) {
            Some(kind) => Ok::<MetaEventType, SMFError>(kind),
            None => Err::<MetaEventType, SMFError>(SMFError::UnknownMetaEventType),
        },
{
    let met = match meta_type {
        0x00 => MetaEventType::SequenceNumber,
        0x01 => MetaEventType::Text,
        0x02 => MetaEventType::Copyright,
        0x03 => MetaEventType::TrackName,
        0x04 => MetaEventType::Instrument,
        0x05 => MetaEventType::Lyric,
        0x06 => MetaEventType::Marker,
        0x07 => MetaEventType::CuePoint,
        0x20 => MetaEventType::MIDIChannel,
        0x21 => MetaEventType::MIDIPort,
        0x2f => MetaEventType::EndOfTrack,
        0x51 => MetaEventType::Tempo,
        0x54 => MetaEventType::SMPTEOffset,
        0x58 => MetaEventType::TimeSignature,
        0x59 => MetaEventType::KeySignature,
        _ => {
            return Err(SMFError::UnknownMetaEventType);
        },
    };
    Ok(met)
}

/// The kinds of channel voice event.
#[derive(Debug, Clone, Copy, PartialEq, Eq, Structural)]
pub enum MIDIEventType {
    /// Two data bytes: note number, velocity.
    NoteOff,
    /// Two data bytes: note number, velocity.
    NoteOn,
    /// Two data bytes: note number, pressure.
    PolyphonicAftertouch,
    /// Two data bytes.
    ControlOrModeChange,
    /// One data byte: program.
    ProgramChange,
    /// One data byte: pressure.
    Aftertouch,
    /// Two data bytes: least significant, most significant.
    PitchBendChange,
}

impl MIDIEventType {
    /// The high nibble of the status byte that stands for this kind.
    pub open spec fn spec_code(self) -> u8 {
        match self {
            MIDIEventType::NoteOff => 0x8,
            MIDIEventType::NoteOn => 0x9,
            MIDIEventType::PolyphonicAftertouch => 0xa,
            MIDIEventType::ControlOrModeChange => 0xb,
            MIDIEventType::ProgramChange => 0xc,
            MIDIEventType::Aftertouch => 0xd,
            MIDIEventType::PitchBendChange => 0xe,
        }
    }

    /// How many data bytes follow the status of an event of this kind.
    pub open spec fn data_len(self) -> nat {
        match self {
            MIDIEventType::ProgramChange | MIDIEventType::Aftertouch => 1,
            _ => 2,
        }
    }

    /// The high nibble of the status byte that stands for this kind.
    #[verifier::when_used_as_spec(spec_code)]
    pub fn code(self) -> (code: u8)
        ensures
            code == self.spec_code(),
    {
        match self {
            MIDIEventType::NoteOff => 0x8,
            MIDIEventType::NoteOn => 0x9,
            MIDIEventType::PolyphonicAftertouch => 0xa,
            MIDIEventType::ControlOrModeChange => 0xb,
            MIDIEventType::ProgramChange => 0xc,
            MIDIEventType::Aftertouch => 0xd,
            MIDIEventType::PitchBendChange => 0xe,
        }
    }
}

/// The kind of channel voice event that a status nibble stands for, if any.
pub open spec fn midi_event_type_of(midi_type: u8) -> Option<MIDIEventType> {
    match midi_type {
        0x8 => Some(MIDIEventType::NoteOff),
        0x9 => Some(MIDIEventType::NoteOn),
        0xa => Some(MIDIEventType::PolyphonicAftertouch),
        0xb => Some(MIDIEventType::ControlOrModeChange),
        0xc => Some(MIDIEventType::ProgramChange),
        0xd => Some(MIDIEventType::Aftertouch),
        0xe => Some(MIDIEventType::PitchBendChange),
        _ => None,
    }
}

/// Decoding a status nibble and taking the kind's nibble undo each other.
pub proof fn lemma_midi_event_type_codes(kind: MIDIEventType, midi_type: u8)
    ensures
        midi_event_type_of(kind.spec_code()) == Some(kind),
        midi_event_type_of(midi_type) == Some(kind) ==> kind.spec_code() == midi_type,
{
}

/// The kind of channel voice event that a status nibble stands for.
pub fn u8_to_midi_event_type(midi_type: u8) -> (result: Result<MIDIEventType, SMFError>)
    ensures
        result == match midi_event_type_of(midi_type) {
            Some(kind) => Ok::<MIDIEventType, SMFError>(kind),
            None => Err::<MIDIEventType, SMFError>(SMFError::UnknownChannelEventType),
        },
{
    let met = match midi_type {
        0x8 => MIDIEventType::NoteOff,
        0x9 => MIDIEventType::NoteOn,
        0xa => MIDIEventType::PolyphonicAftertouch,
        0xb => MIDIEventType::ControlOrModeChange,
        0xc => MIDIEventType::ProgramChange,
        0xd => MIDIEventType::Aftertouch,
        0xe => MIDIEventType::PitchBendChange,
        _ => {
            return Err(SMFError::UnknownChannelEventType);
        },
    };
    Ok(met)
}

/// The thirty keys: up to seven sharps or flats, each major or minor.
#[derive(Debug, Clone, Copy, PartialEq, Eq, Structural)]
pub enum KeySignature {
    CSharpMajor,
    ASharpminor,
    FSharpmajor,
    DSharpminor,
    BMajor,
    GSharpminor,
    EMajor,
    CSharpMinor,
    AMajor,
    FSharpMinor,
    DMajor,
    BMinor,
    GMajor,
    EMinor,
    CMajor,
    AMinor,
    FMajor,
    DMinor,
    BFlatMajor,
    GMinor,
    EFlatMajor,
    CMinor,
    AFlatMajor,
    FMinor,
    DFlatMajor,
    BFlatMinor,
    GFlatMajor,
    EFlatMinor,
    CFlatMajor,
    AFlatMinor,
}

impl KeySignature {
    /// The number of sharps of this key, or minus its number of flats.
    pub open spec fn accidentals(self) -> int {
        match self {
            KeySignature::CSharpMajor | KeySignature::ASharpminor => 7,
            KeySignature::FSharpmajor | KeySignature::DSharpminor => 6,
            KeySignature::BMajor | KeySignature::GSharpminor => 5,
            KeySignature::EMajor | KeySignature::CSharpMinor => 4,
            KeySignature::AMajor | KeySignature::FSharpMinor => 3,
            KeySignature::DMajor | KeySignature::BMinor => 2,
            KeySignature::GMajor | KeySignature::EMinor => 1,
            KeySignature::CMajor | KeySignature::AMinor => 0,
            KeySignature::FMajor | KeySignature::DMinor => -1,
            KeySignature::BFlatMajor | KeySignature::GMinor => -2,
            KeySignature::EFlatMajor | KeySignature::CMinor => -3,
            KeySignature::AFlatMajor | KeySignature::FMinor => -4,
            KeySignature::DFlatMajor | KeySignature::BFlatMinor => -5,
            KeySignature::GFlatMajor | KeySignature::EFlatMinor => -6,
            KeySignature::CFlatMajor | KeySignature::AFlatMinor => -7,
        }
    }

    /// Whether this is a minor key.
    pub open spec fn is_minor(self) -> bool {
        match self {
            KeySignature::ASharpminor
            | KeySignature::DSharpminor
            | KeySignature::GSharpminor
            | KeySignature::CSharpMinor
            | KeySignature::FSharpMinor
            | KeySignature::BMinor
            | KeySignature::EMinor
            | KeySignature::AMinor
            | KeySignature::DMinor
            | KeySignature::GMinor
            | KeySignature::CMinor
            | KeySignature::FMinor
            | KeySignature::BFlatMinor
            | KeySignature::EFlatMinor
            | KeySignature::AFlatMinor => true,
            _ => false,
        }
    }

    /// The two payload bytes that stand for this key: the count of sharps
    /// or flats as a two's-complement byte, then 0 for major or 1 for minor.
    pub fn code(self) -> (bytes: (u8, u8))
        ensures
            key_is_written(self, bytes.0, bytes.1),
            key_signature_of(bytes.0, bytes.1) == Some(self),
    {
        let bytes: (u8, u8) = match self {
            KeySignature::CSharpMajor => (0x07, 0),
            KeySignature::ASharpminor => (0x07, 1),
            KeySignature::FSharpmajor => (0x06, 0),
            KeySignature::DSharpminor => (0x06, 1),
            KeySignature::BMajor => (0x05, 0),
            KeySignature::GSharpminor => (0x05, 1),
            KeySignature::EMajor => (0x04, 0),
            KeySignature::CSharpMinor => (0x04, 1),
            KeySignature::AMajor => (0x03, 0),
            KeySignature::FSharpMinor => (0x03, 1),
            KeySignature::DMajor => (0x02, 0),
            KeySignature::BMinor => (0x02, 1),
            KeySignature::GMajor => (0x01, 0),
            KeySignature::EMinor => (0x01, 1),
            KeySignature::CMajor => (0x00, 0),
            KeySignature::AMinor => (0x00, 1),
            KeySignature::FMajor => (0xff, 0),
            KeySignature::DMinor => (0xff, 1),
            KeySignature::BFlatMajor => (0xfe, 0),
            KeySignature::GMinor => (0xfe, 1),
            KeySignature::EFlatMajor => (0xfd, 0),
            KeySignature::CMinor => (0xfd, 1),
            KeySignature::AFlatMajor => (0xfc, 0),
            KeySignature::FMinor => (0xfc, 1),
            KeySignature::DFlatMajor => (0xfb, 0),
            KeySignature::BFlatMinor => (0xfb, 1),
            KeySignature::GFlatMajor => (0xfa, 0),
            KeySignature::EFlatMinor => (0xfa, 1),
            KeySignature::CFlatMajor => (0xf9, 0),
            KeySignature::AFlatMinor => (0xf9, 1),
        };
        proof {
            lemma_key_written_once(self, self, bytes.0, bytes.1);
        }
        bytes
    }
}

/// The number that a byte stands for when read as two's complement.
pub open spec fn twos_complement(byte: u8) -> int {
    if byte < 0x80 {
        byte as int
    } else {
        byte - 0x100
    }
}

/// The key written as a count of sharps or flats, a two's-complement byte,
/// and a flag that is 0 for major and 1 for minor; `None` where no key is
/// written so.
pub open spec fn key_signature_of(sf: u8, mi: u8) -> Option<KeySignature> {
    if exists|key: KeySignature| key_is_written(key, sf, mi) {
        Some(choose|key: KeySignature| key_is_written(key, sf, mi))
    } else {
        None
    }
}

/// Whether `sf` and `mi` are the two payload bytes that stand for `key`.
pub open spec fn key_is_written(key: KeySignature, sf: u8, mi: u8) -> bool {
    &&& key.accidentals() == twos_complement(sf)
    &&& mi == (if key.is_minor() { 1u8 } else { 0u8 })
}

/// No two keys are written with the same two bytes.
pub proof fn lemma_key_written_once(first: KeySignature, second: KeySignature, sf: u8, mi: u8)
    requires
        key_is_written(first, sf, mi),
        key_is_written(second, sf, mi),
    ensures
        first == second,
        key_signature_of(sf, mi) == Some(first),
{
    let chosen = choose|key: KeySignature| key_is_written(key, sf, mi);
    assert(key_is_written(chosen, sf, mi));
}

/// The key that the two payload bytes of a key signature stand for.
pub fn sf_mi_to_key_signature(sf: u8, mi: u8) -> (result: Result<KeySignature, SMFError>)
    ensures
        result == match key_signature_of(sf, mi) {
            Some(key) => Ok::<KeySignature, SMFError>(key),
            None => Err::<KeySignature, SMFError>(SMFError::UnknownKeySignature),
        },
{
    let val: u16 = ((sf as u16) << 8) | (mi as u16);
    assert(val == sf * 256 + mi) by (bit_vector)
        requires
            val == ((sf as u16) << 8) | (mi as u16),
    ;
    let key = match val {
        0x0700 => KeySignature::CSharpMajor,
        0x0701 => KeySignature::ASharpminor,
        0x0600 => KeySignature::FSharpmajor,
        0x0601 => KeySignature::DSharpminor,
        0x0500 => KeySignature::BMajor,
        0x0501 => KeySignature::GSharpminor,
        0x0400 => KeySignature::EMajor,
        0x0401 => KeySignature::CSharpMinor,
        0x0300 => KeySignature::AMajor,
        0x0301 => KeySignature::FSharpMinor,
        0x0200 => KeySignature::DMajor,
        0x0201 => KeySignature::BMinor,
        0x0100 => KeySignature::GMajor,
        0x0101 => KeySignature::EMinor,
        0x0000 => KeySignature::CMajor,
        0x0001 => KeySignature::AMinor,
        0xff00 => KeySignature::FMajor,
        0xff01 => KeySignature::DMinor,
        0xfe00 => KeySignature::BFlatMajor,
        0xfe01 => KeySignature::GMinor,
        0xfd00 => KeySignature::EFlatMajor,
        0xfd01 => KeySignature::CMinor,
        0xfc00 => KeySignature::AFlatMajor,
        0xfc01 => KeySignature::FMinor,
        0xfb00 => KeySignature::DFlatMajor,
        0xfb01 => KeySignature::BFlatMinor,
        0xfa00 => KeySignature::GFlatMajor,
        0xfa01 => KeySignature::EFlatMinor,
        0xf900 => KeySignature::CFlatMajor,
        0xf901 => KeySignature::AFlatMinor,
        _ => {
            assert forall|key: KeySignature| !key_is_written(key, sf, mi) by {}
            return Err(SMFError::UnknownKeySignature);
        },
    };
    proof {
        lemma_key_written_once(key, key, sf, mi);
    }
    Ok(key)
}

/// A meta event payload read as text.
#[derive(Debug, Clone, PartialEq, Eq)]
pub struct MetaEventGenericText {
    pub str: String,
}

impl View for MetaEventGenericText {
    type V = Seq<char>;

    open spec fn view(&self) -> Seq<char> {
        self.str@
    }
}

/// A meta event payload kept as the bytes it was written with.
#[derive(Debug, Clone, PartialEq, Eq)]
pub struct MetaEventGenericData {
    pub data: Vec<u8>,
}

impl View for MetaEventGenericData {
    type V = Seq<u8>;

    open spec fn view(&self) -> Seq<u8> {
        self.data@
    }
}

/// A tempo: the length of a quarter note in microseconds, and the beats per
/// minute that follow from it, `60_000_000 / ms_per_quarter_note`, as whole
/// beats and the remainder of that division.
#[derive(Debug, Clone, Copy, PartialEq, Eq, Structural)]
pub struct MetaEventTempo {
    pub ms_per_quarter_note: u32,
    pub bpm_whole: u32,
    pub bpm_remainder: u32,
}

/// A time signature. `denominator` is the note value itself, not its exponent.
#[derive(Debug, Clone, Copy, PartialEq, Eq, Structural)]
pub struct MetaEventTimeSignature {
    pub numerator: u8,
    pub denominator: u8,
    pub number_of_midi_clocks: u8,
    pub number_of_32_notes: u8,
}

/// A key signature: the two payload bytes and the key they stand for.
#[derive(Debug, Clone, Copy, PartialEq, Eq, Structural)]
pub struct MetaEventKeySignature {
    pub sharp_flat: u8,
    pub major_minor: u8,
    pub key: KeySignature,
}

/// A decoded meta event payload.
#[derive(Debug, Clone, PartialEq, Eq)]
pub enum MetaEventData {
    GenericText(MetaEventGenericText),
    GenericData(MetaEventGenericData),
    Tempo(MetaEventTempo),
    TimeSignature(MetaEventTimeSignature),
    KeySignature(MetaEventKeySignature),
}

/// What a `MetaEventData` holds.
pub enum MetaEventDataView {
    GenericText(Seq<char>),
    GenericData(Seq<u8>),
    Tempo(MetaEventTempo),
    TimeSignature(MetaEventTimeSignature),
    KeySignature(MetaEventKeySignature),
}

impl View for MetaEventData {
    type V = MetaEventDataView;

    open spec fn view(&self) -> MetaEventDataView {
        match self {
            MetaEventData::GenericText(text) => MetaEventDataView::GenericText(text@),
            MetaEventData::GenericData(data) => MetaEventDataView::GenericData(data@),
            MetaEventData::Tempo(tempo) => MetaEventDataView::Tempo(*tempo),
            MetaEventData::TimeSignature(time) => MetaEventDataView::TimeSignature(*time),
            MetaEventData::KeySignature(key) => MetaEventDataView::KeySignature(*key),
        }
    }
}

/// A note-off event. `note_name` is the name of note `number`.
#[derive(Debug, Clone, PartialEq, Eq)]
pub struct MIDIEventNoteOff {
    pub number: u8,
    pub velocity: u8,
    pub note_name: String,
}

/// A note-on event. `note_name` is the name of note `number`.
#[derive(Debug, Clone, PartialEq, Eq)]
pub struct MIDIEventNoteOn {
    pub number: u8,
    pub velocity: u8,
    pub note_name: String,
}

/// What a note-on or note-off event holds.
pub struct NoteView {
    pub number: u8,
    pub velocity: u8,
    pub note_name: Seq<char>,
}

impl View for MIDIEventNoteOff {
    type V = NoteView;

    open spec fn view(&self) -> NoteView {
        NoteView { number: self.number, velocity: self.velocity, note_name: self.note_name@ }
    }
}

impl View for MIDIEventNoteOn {
    type V = NoteView;

    open spec fn view(&self) -> NoteView {
        NoteView { number: self.number, velocity: self.velocity, note_name: self.note_name@ }
    }
}

/// The data bytes of a channel voice event that is not a note; `data1` is 0
/// where the event has one data byte.
#[derive(Debug, Clone, Copy, PartialEq, Eq, Structural)]
pub struct MIDIEventGenericData {
    pub data0: u8,
    pub data1: u8,
}

/// The decoded data bytes of a channel voice event.
#[derive(Debug, Clone, PartialEq, Eq)]
pub enum MIDIEventData {
    NoteOff(MIDIEventNoteOff),
    NoteOn(MIDIEventNoteOn),
    GenericData(MIDIEventGenericData),
}

/// What a `MIDIEventData` holds.
pub enum MIDIEventDataView {
    NoteOff(NoteView),
    NoteOn(NoteView),
    GenericData(MIDIEventGenericData),
}

impl View for MIDIEventData {
    type V = MIDIEventDataView;

    open spec fn view(&self) -> MIDIEventDataView {
        match self {
            MIDIEventData::NoteOff(note) => MIDIEventDataView::NoteOff(note@),
            MIDIEventData::NoteOn(note) => MIDIEventDataView::NoteOn(note@),
            MIDIEventData::GenericData(data) => MIDIEventDataView::GenericData(*data),
        }
    }
}

/// A channel voice event.
#[derive(Debug, Clone, PartialEq, Eq)]
pub struct MIDIEvent {
    pub status: MIDIEventType,
    pub channel: u8,
    pub data: MIDIEventData,
}

/// What a `MIDIEvent` holds.
pub struct MIDIEventView {
    pub status: MIDIEventType,
    pub channel: u8,
    pub data: MIDIEventDataView,
}

impl View for MIDIEvent {
    type V = MIDIEventView;

    open spec fn view(&self) -> MIDIEventView {
        MIDIEventView { status: self.status, channel: self.channel, data: self.data@ }
    }
}

/// A meta event.
#[derive(Debug, Clone, PartialEq, Eq)]
pub struct MetaEvent {
    pub event_type: MetaEventType,
    pub event_data: MetaEventData,
}

/// What a `MetaEvent` holds.
pub struct MetaEventView {
    pub event_type: MetaEventType,
    pub event_data: MetaEventDataView,
}

impl View for MetaEvent {
    type V = MetaEventView;

    open spec fn view(&self) -> MetaEventView {
        MetaEventView { event_type: self.event_type, event_data: self.event_data@ }
    }
}

/// Stands for a system-exclusive event. The decoder stops at such an event
/// and never builds one.
#[derive(Debug, Clone, Copy, PartialEq, Eq, Structural)]
pub struct SysexEvent {
    pub dummy: u8,
}

/// The payload of an event.
#[derive(Debug, Clone, PartialEq, Eq)]
pub enum EventType {
    MIDI(MIDIEvent),
    Meta(MetaEvent),
    Sysex(SysexEvent),
}

/// What an `EventType` holds.
pub enum EventTypeView {
    MIDI(MIDIEventView),
    Meta(MetaEventView),
    Sysex(SysexEvent),
}

impl View for EventType {
    type V = EventTypeView;

    open spec fn view(&self) -> EventTypeView {
        match self {
            EventType::MIDI(event) => EventTypeView::MIDI(event@),
            EventType::Meta(event) => EventTypeView::Meta(event@),
            EventType::Sysex(event) => EventTypeView::Sysex(*event),
        }
    }
}

/// An event and the ticks between the event before it and itself.
#[derive(Debug, Clone, PartialEq, Eq)]
pub struct Event {
    pub delta_time: u32,
    pub event: EventType,
}

/// What an `Event` holds.
pub struct EventView {
    pub delta_time: u32,
    pub event: EventTypeView,
}

impl View for Event {
    type V = EventView;

    open spec fn view(&self) -> EventView {
        EventView { delta_time: self.delta_time, event: self.event@ }
    }
}

/// What each of `events` holds, in the same order.
pub open spec fn event_views(events: Seq<Event>) -> Seq<EventView> {
    Seq::new(events.len(), |i: int| events[i]@)
}

/// The character that stands for a decimal digit.
pub open spec fn digit_char(digit: int) -> char {
    ('0' as int + digit) as char
}

/// A natural number written in decimal, without leading zeros.
pub open spec fn decimal(n: nat) -> Seq<char>
    decreases n,
{
    if n < 10 {
        seq![digit_char(n as int)]
    } else {
        decimal(n / 10).push(digit_char((n % 10) as int))
    }
}

/// An integer written in decimal, with a minus sign where it is negative.
pub open spec fn signed_decimal(n: int) -> Seq<char> {
    if n < 0 {
        seq!['-'] + decimal((-n) as nat)
    } else {
        decimal(n as nat)
    }
}

/// The name of a pitch class, from 0 for C up to 11 for B.
pub open spec fn pitch_class_name(pitch_class: u8) -> Seq<char> {
    match pitch_class {
        0 => seq!['C'],
        1 => seq!['C', '#'],
        2 => seq!['D'],
        3 => seq!['D', '#'],
        4 => seq!['E'],
        5 => seq!['F'],
        6 => seq!['F', '#'],
        7 => seq!['G'],
        8 => seq!['G', '#'],
        9 => seq!['A'],
        10 => seq!['A', '#'],
        _ => seq!['B'],
    }
}

/// The octave of a note number; note 60 is in octave 4.
pub open spec fn note_octave(number: u8) -> int {
    number / 12 - 1
}

/// The name of a note: its pitch class, a hyphen, and its octave.
pub open spec fn note_name(number: u8) -> Seq<char> {
    pitch_class_name(number % 12) + seq!['-'] + signed_decimal(note_octave(number))
}

fn digit_str(digit: u8) -> (text: &'static str)
    requires
        digit < 10,
    ensures
        text@ == seq![digit_char(digit as int)],
{
    proof {
        reveal_strlit("0");
        reveal_strlit("1");
        reveal_strlit("2");
        reveal_strlit("3");
        reveal_strlit("4");
        reveal_strlit("5");
        reveal_strlit("6");
        reveal_strlit("7");
        reveal_strlit("8");
        reveal_strlit("9");
    }
    let text = match digit {
        0 => "0",
        1 => "1",
        2 => "2",
        3 => "3",
        4 => "4",
        5 => "5",
        6 => "6",
        7 => "7",
        8 => "8",
        _ => "9",
    };
    text
}

/// The name of a note: pitch class, hyphen, octave.
pub fn note_number_to_note_name(number: u8) -> (name: String)
    ensures
        name@ == note_name(number),
{
    let octave: i8 = -1 + (number / 12) as i8;
    proof {
        reveal_strlit("C");
        reveal_strlit("C#");
        reveal_strlit("D");
        reveal_strlit("D#");
        reveal_strlit("E");
        reveal_strlit("F");
        reveal_strlit("F#");
        reveal_strlit("G");
        reveal_strlit("G#");
        reveal_strlit("A");
        reveal_strlit("A#");
        reveal_strlit("B");
        reveal_strlit("-");
    }
    let note = match number % 12 {
        0 => "C",
        1 => "C#",
        2 => "D",
        3 => "D#",
        4 => "E",
        5 => "F",
        6 => "F#",
        7 => "G",
        8 => "G#",
        9 => "A",
        10 => "A#",
        _ => "B",
    };
    let mut name = String::from_str(note);
    name.append("-");
    if octave < 0 {
        name.append("-");
        name.append(digit_str(1));
    } else if octave < 10 {
        name.append(digit_str(octave as u8));
    } else {
        name.append(digit_str(octave as u8 / 10));
        name.append(digit_str(octave as u8 % 10));
        assert(decimal(octave as nat) =~= seq![digit_char(octave as int / 10)] + seq![
            digit_char(octave as int % 10),
        ]) by {
            reveal_with_fuel(decimal, 2);
        }
    }
    name
}

/// The data of a channel voice event of the given kind whose data bytes are
/// `data0` and, where it has two, `data1`.
pub open spec fn midi_event_data_of(
    kind: MIDIEventType,
    data0: u8,
    data1: u8,
) -> MIDIEventDataView {
    match kind {
        MIDIEventType::NoteOff => MIDIEventDataView::NoteOff(
            NoteView { number: data0, velocity: data1, note_name: note_name(data0) },
        ),
        MIDIEventType::NoteOn => MIDIEventDataView::NoteOn(
            NoteView { number: data0, velocity: data1, note_name: note_name(data0) },
        ),
        MIDIEventType::ProgramChange | MIDIEventType::Aftertouch => MIDIEventDataView::GenericData(
            MIDIEventGenericData { data0, data1: 0 },
        ),
        _ => MIDIEventDataView::GenericData(MIDIEventGenericData { data0, data1 }),
    }
}

/// The channel voice event that `bytes` starts with under the status
/// `status_byte`, and the number of bytes it takes; or why there is none.
pub open spec fn parse_midi_event(status_byte: u8, bytes: Seq<u8>) -> Result<
    (MIDIEventView, nat),
    SMFError,
> {
    match midi_event_type_of(status_byte / 16) {
        None => Err(SMFError::UnknownChannelEventType),
        Some(kind) => if bytes.len() < kind.data_len() {
            Err(SMFError::IoError)
        } else {
            Ok(
                (
                    MIDIEventView {
                        status: kind,
                        channel: status_byte % 16,
                        data: midi_event_data_of(kind, bytes[0], bytes[1]),
                    },
                    kind.data_len(),
                ),
            )
        },
    }
}

/// Reads the data bytes of a channel voice event whose status byte is
/// `status_byte`, in the order in which they stand, and builds the event.
pub fn create_midi_event(status_byte: u8, track: &mut ByteReader) -> (result: Result<
    MIDIEvent,
    SMFError,
>)
    ensures
        match parse_midi_event(status_byte, old(track)@) {
            Ok((event, used)) => {
                &&& result matches Ok(decoded)
                &&& decoded@ == event
                &&& final(track)@ == old(track)@.skip(used as int)
            },
            Err(error) => {
                &&& result matches Err(e)
                &&& e == error
                &&& *final(track) == *old(track)
            },
        },
{
    let status = (status_byte & 0xf0) >> 4;
    let channel = status_byte & 0x0f;
    assert(status == status_byte / 16 && channel == status_byte % 16) by (bit_vector)
        requires
            status == (status_byte & 0xf0) >> 4,
            channel == status_byte & 0x0f,
    ;
    let event_type = u8_to_midi_event_type(status)?;
    let mut cursor = *track;
    let event = match event_type {
        MIDIEventType::NoteOff => {
            let number = cursor.read_u8()?;
            let velocity = cursor.read_u8()?;
            let note_name = note_number_to_note_name(number);
            let med = MIDIEventData::NoteOff(MIDIEventNoteOff { number, velocity, note_name });
            MIDIEvent { status: event_type, channel, data: med }
        },
        MIDIEventType::NoteOn => {
            let number = cursor.read_u8()?;
            let velocity = cursor.read_u8()?;
            let note_name = note_number_to_note_name(number);
            let med = MIDIEventData::NoteOn(MIDIEventNoteOn { number, velocity, note_name });
            MIDIEvent { status: event_type, channel, data: med }
        },
        MIDIEventType::PolyphonicAftertouch
        | MIDIEventType::ControlOrModeChange
        | MIDIEventType::PitchBendChange => {
            let data0 = cursor.read_u8()?;
            let data1 = cursor.read_u8()?;
            let med = MIDIEventData::GenericData(MIDIEventGenericData { data0, data1 });
            MIDIEvent { status: event_type, channel, data: med }
        },
        MIDIEventType::ProgramChange | MIDIEventType::Aftertouch => {
            let data0 = cursor.read_u8()?;
            let data1: u8 = 0;
            let med = MIDIEventData::GenericData(MIDIEventGenericData { data0, data1 });
            MIDIEvent { status: event_type, channel, data: med }
        },
    };
    *track = cursor;
    Ok(event)
}

/// The tempo at which a quarter note lasts `ms_per_quarter_note` microseconds.
pub open spec fn tempo_of(ms_per_quarter_note: u32) -> MetaEventTempo {
    MetaEventTempo {
        ms_per_quarter_note,
        bpm_whole: (60_000_000int / ms_per_quarter_note as int) as u32,
        bpm_remainder: (60_000_000int % ms_per_quarter_note as int) as u32,
    }
}

/// What the payload of a meta event of the given kind decodes to, or why it
/// does not decode.
pub open spec fn meta_event_data_of(kind: MetaEventType, payload: Seq<u8>) -> Result<
    MetaEventDataView,
    SMFError,
> {
    match kind {
        MetaEventType::Text
        | MetaEventType::Copyright
        | MetaEventType::TrackName
        | MetaEventType::Instrument
        | MetaEventType::Lyric => if valid_utf8(payload) {
            Ok(MetaEventDataView::GenericText(decode_utf8(payload)))
        } else {
            Err(SMFError::InvalidUtf8Text)
        },
        MetaEventType::Tempo => if payload.len() != 3 {
            Err(SMFError::MalformedPayloadLength)
        } else if big_endian_value(payload) == 0 {
            Err(SMFError::MalformedPayloadValue)
        } else {
            Ok(MetaEventDataView::Tempo(tempo_of(big_endian_value(payload) as u32)))
        },
        MetaEventType::TimeSignature => if payload.len() != 4 {
            Err(SMFError::MalformedPayloadLength)
        } else if payload[1] > 7 {
            Err(SMFError::MalformedPayloadValue)
        } else {
            Ok(
                MetaEventDataView::TimeSignature(
                    MetaEventTimeSignature {
                        numerator: payload[0],
                        denominator: pow2(payload[1] as nat) as u8,
                        number_of_midi_clocks: payload[2],
                        number_of_32_notes: payload[3],
                    },
                ),
            )
        },
        MetaEventType::KeySignature => if payload.len() != 2 {
            Err(SMFError::MalformedPayloadLength)
        } else {
            match key_signature_of(payload[0], payload[1]) {
                Some(key) => Ok(
                    MetaEventDataView::KeySignature(
                        MetaEventKeySignature {
                            sharp_flat: payload[0],
                            major_minor: payload[1],
                            key,
                        },
                    ),
                ),
                None => Err(SMFError::UnknownKeySignature),
            }
        },
        _ => Ok(MetaEventDataView::GenericData(payload)),
    }
}

/// The meta event with type byte `meta_type` and the given payload, or why
/// there is none.
pub open spec fn meta_event_of(meta_type: u8, payload: Seq<u8>) -> Result<MetaEventView, SMFError> {
    match meta_event_type_of(meta_type) {
        None => Err(SMFError::UnknownMetaEventType),
        Some(kind) => match meta_event_data_of(kind, payload) {
            Ok(data) => Ok(MetaEventView { event_type: kind, event_data: data }),
            Err(error) => Err(error),
        },
    }
}

/// Calls `String::from_utf8`. Taken on trust: the call succeeds exactly on
/// well-formed UTF-8, and the string it gives is then made of the very
/// bytes it was given.
#[verifier::external_body]
fn string_from_utf8(bytes: Vec<u8>) -> (text: Option<String>)
    ensures
        text is Some <==> valid_utf8(bytes@),
        text matches Some(made) ==> encode_utf8(made@) == bytes@,
{
    String::from_utf8(bytes).ok()
}

/// Builds the meta event with type byte `meta_type` from its payload.
pub fn create_meta_event(meta_type: u8, data: &mut Vec<u8>) -> (result: Result<
    MetaEvent,
    SMFError,
>)
    ensures
        final(data)@ == old(data)@,
        match meta_event_of(meta_type, old(data)@) {
            Ok(event) => result matches Ok(decoded) && decoded@ == event,
            Err(error) => result matches Err(e) && e == error,
        },
{
    let human_readable = u8_to_meta_event_type(meta_type)?;
    let event_data = match human_readable {
        MetaEventType::Text
        | MetaEventType::Copyright
        | MetaEventType::TrackName
        | MetaEventType::Instrument
        | MetaEventType::Lyric => {
            match string_from_utf8(data.clone()) {
                Some(s) => {
                    proof {
                        encode_utf8_decode_utf8(s@);
                    }
                    MetaEventData::GenericText(MetaEventGenericText { str: s })
                },
                None => {
                    return Err(SMFError::InvalidUtf8Text);
                },
            }
        },
        MetaEventType::Tempo => {
            if data.len() != 3 {
                return Err(SMFError::MalformedPayloadLength);
            }
            let ms_per_quarter_note = vector_to_big_endian_u32(data);
            if ms_per_quarter_note == 0 {
                return Err(SMFError::MalformedPayloadValue);
            }
            MetaEventData::Tempo(
                MetaEventTempo {
                    ms_per_quarter_note,
                    bpm_whole: 60_000_000 / ms_per_quarter_note,
                    bpm_remainder: 60_000_000 % ms_per_quarter_note,
                },
            )
        },
        MetaEventType::TimeSignature => {
            if data.len() != 4 {
                return Err(SMFError::MalformedPayloadLength);
            }
            let numerator = data[0];
            let exponent = data[1];
            if exponent > 7 {
                return Err(SMFError::MalformedPayloadValue);
            }
            proof {
                lemma2_to64();
                lemma_u8_shl_is_mul(1, exponent);
            }
            let denominator: u8 = 1u8 << exponent;
            let number_of_midi_clocks = data[2];
            let number_of_32_notes = data[3];
            MetaEventData::TimeSignature(
                MetaEventTimeSignature {
                    numerator,
                    denominator,
                    number_of_midi_clocks,
                    number_of_32_notes,
                },
            )
        },
        MetaEventType::KeySignature => {
            if data.len() != 2 {
                return Err(SMFError::MalformedPayloadLength);
            }
            let sf = data[0];
            let mi = data[1];
            let key = sf_mi_to_key_signature(sf, mi)?;
            MetaEventData::KeySignature(
                MetaEventKeySignature { sharp_flat: sf, major_minor: mi, key },
            )
        },
        _ => MetaEventData::GenericData(MetaEventGenericData { data: data.clone() }),
    };
    Ok(MetaEvent { event_type: human_readable, event_data })
}

} // verus!
