use apres::error::ApresError;
use apres::event::MIDIEvent::{NoteOff, NoteOn, SetTempo, Text};
use apres::midi::MIDI;

#[test]
fn tests_test_initialize_load() {
    let midi_bytes = vec![
        0x4D, 0x54, 0x68, 0x64, // MThd
        0x00, 0x00, 0x00, 0x06, // Length
        0x00, 0x01, // format = 1
        0x00, 0x01, // track count = 1
        0x00, 0x1b, // bytes in midi (excluding Mthd) = 20 expressed as variable length
        0x4D, 0x54, 0x72, 0x6B, // MTrk
        0x00, 0x00, 0x00, 92, // Length
        // EVENTS (Do not change order)
        // Meta Events
        // TimeSignature
        0x00, 0xFF, 0x58, 0x04, 0x04, 0x04, 0x24, 0x04,
        // Text ("ABC")
        0x00, 0xFF, 0x01, 0x03, 0x41, 0x42, 0x43,
        // CopyRightNotice ("ABC")
        0x00, 0xFF, 0x02, 0x03, 0x41, 0x42, 0x43,
        // TrackName ("ABC")
        0x00, 0xFF, 0x03, 0x03, 0x41, 0x42, 0x43,
        // InstrumentName ("ABC")
        0x00, 0xFF, 0x04, 0x03, 0x41, 0x42, 0x43,
        // Lyric ("ABC")
        0x00, 0xFF, 0x05, 0x03, 0x41, 0x42, 0x43,
        // Marker ("ABC")
        0x00, 0xFF, 0x06, 0x03, 0x41, 0x42, 0x43,
        // CuePoint ("ABC")
        0x00, 0xFF, 0x07, 0x03, 0x41, 0x42, 0x43,
        // Channel Prefix
        0x00, 0xFF, 0x20, 0x01, 0x00,
        // SetTempo (~210)
        0x00, 0xFF, 0x51, 0x03, 0x04, 0x5c, 0x12,
        // Channel Events
        // NoteOn
        0x00, 0x90, 0x40, 0x18,
        // AfterTouch
        0x30, 0xA0, 0x40, 0x50,
        // PitchWheel
        0x10, 0xE0, 0x00, 0x00,
        // ChannelPressure
        0x00, 0xD0, 0x2F,
        // NoteOff
        0x38, 0x80, 0x00, 0x40,
        0x00, 0xFF, 0x2F, 0x00, // EOT
    ];
    match MIDI::from_bytes(midi_bytes) {
        Ok(midi) => {
            assert_eq!(midi.count_tracks(), 1);
            assert_eq!(midi.get_track_length(0), 121);
            assert_eq!(midi.events.len(), 15);
            assert_eq!(midi.event_positions.len(), 15);
        }
        Err(ApresError::InvalidBytes(bytes)) => {
            println!("{:?}", bytes);
            assert!(false);
        }
        Err(_) => (),
    }
}

#[test]
fn tests_test_add_event() {
    let mut midi = MIDI::new();
    let on_event = midi.push_event(0, 0, NoteOn(0, 64, 100));
    let off_event = midi.push_event(0, 119, NoteOff(0, 64, 0));

    assert_eq!(on_event, 1);
    assert_eq!(off_event, 2);
    assert_eq!(midi.events.len(), 2);
    assert_eq!(midi.event_positions.len(), 2);
    assert_eq!(midi.count_tracks(), 1);
    assert_eq!(midi.get_track_length(0), 120);
}

#[test]
fn test_decoded_text_payload_reads_back() {
    let midi_bytes = vec![
        0x4D, 0x54, 0x68, 0x64, 0x00, 0x00, 0x00, 0x06, 0x00, 0x01, 0x00, 0x01, 0x00, 0x78,
        0x4D, 0x54, 0x72, 0x6B, 0x00, 0x00, 0x00, 0x07, // one Text event
        0x00, 0xFF, 0x01, 0x03, 0x41, 0x42, 0x43,
    ];
    let midi = MIDI::from_bytes(midi_bytes).unwrap();
    match midi.get_event(1) {
        Some(Text(s)) => assert_eq!(s, "ABC"),
        _ => panic!("expected a text event under id 1"),
    }
}

#[test]
fn test_unknown_meta_and_bad_utf8_are_skipped() {
    let midi_bytes = vec![
        0x4D, 0x54, 0x68, 0x64, 0x00, 0x00, 0x00, 0x06, 0x00, 0x01, 0x00, 0x01, 0x00, 0x78,
        0x4D, 0x54, 0x72, 0x6B, 0x00, 0x00, 0x00, 0x0F, // 15 bytes of events
        0x00, 0xFF, 0x60, 0x01, 0x00, // unknown meta sub-type: skipped
        0x00, 0xFF, 0x01, 0x02, 0xC3, 0x28, // illegible text payload: skipped
        0x00, 0x90, 0x40, 0x18, // NoteOn: kept
    ];
    let midi = MIDI::from_bytes(midi_bytes).unwrap();
    assert_eq!(midi.events.len(), 1);
    match midi.get_event(1) {
        Some(NoteOn(0, 0x40, 0x18)) => (),
        _ => panic!("expected the note-on to survive"),
    }
}

#[test]
fn test_missing_header_is_fatal() {
    let midi_bytes = vec![0x4D, 0x54, 0x72, 0x6B, 0x00, 0x00, 0x00, 0x00];
    match MIDI::from_bytes(midi_bytes) {
        Err(ApresError::MissingHeader) => (),
        _ => panic!("a track chunk before any header must be fatal"),
    }
}

#[test]
fn test_garbage_bytes_are_invalid() {
    match MIDI::from_bytes(vec![0x00, 0x01, 0x02, 0x03, 0x04]) {
        Err(ApresError::InvalidBytes(_)) => (),
        _ => panic!("garbage must be rejected"),
    }
}

#[test]
fn test_move_event_changes_position_only() {
    let mut midi = MIDI::new();
    let id = midi.insert_event(0, 10, NoteOn(1, 60, 90)).unwrap();
    midi.move_event(2, 55, id);
    assert_eq!(midi.get_event_position(id), Some(&(2, 55)));
    assert_eq!(midi.get_event(id), Some(&NoteOn(1, 60, 90)));
}

#[test]
fn test_replace_event_changes_content_only() {
    let mut midi = MIDI::new();
    let id = midi.insert_event(3, 77, NoteOn(1, 60, 90)).unwrap();
    midi.replace_event(id, NoteOff(1, 60, 0)).unwrap();
    assert_eq!(midi.get_event(id), Some(&NoteOff(1, 60, 0)));
    assert_eq!(midi.get_event_position(id), Some(&(3, 77)));
}

#[test]
fn test_replace_unknown_id_reports_and_keeps_state() {
    let mut midi = MIDI::new();
    let id = midi.insert_event(0, 0, NoteOn(0, 1, 2)).unwrap();
    match midi.replace_event(id + 1, NoteOff(0, 1, 0)) {
        Err(ApresError::EventNotFound(missing)) => assert_eq!(missing, id + 1),
        _ => panic!("an unknown id must be reported"),
    }
    assert_eq!(midi.count_events(), 1);
    assert_eq!(midi.get_event(id), Some(&NoteOn(0, 1, 2)));
}

#[test]
fn test_insert_beyond_track_cap() {
    let mut midi = MIDI::new();
    match midi.insert_event(16, 0, NoteOn(0, 1, 2)) {
        Err(ApresError::TrackOutOfBounds) => (),
        _ => panic!("track indices are capped at 15"),
    }
    assert_eq!(midi.count_events(), 0);
}

#[test]
fn test_document_round_trip_through_bytes() {
    let mut midi = MIDI::new();
    midi.push_event(0, 0, NoteOn(0, 64, 100));
    midi.push_event(0, 120, NoteOff(0, 64, 0));
    midi.push_event(0, 0, SetTempo(500000));
    let bytes = midi.as_bytes();
    let back = MIDI::from_bytes(bytes.clone()).unwrap();
    // The synthesized end-of-track is dropped again on read.
    assert_eq!(back.events.len(), 3);
    assert_eq!(back.count_tracks(), 1);
    assert_eq!(back.get_track_length(0), midi.get_track_length(0));
    assert_eq!(back.get_ppqn(), 120);
    assert_eq!(back.get_format(), 1);
    // Tick order survives; ids are re-assigned in tick order.
    assert_eq!(back.get_event_position(1), Some(&(0, 0)));
    assert_eq!(back.get_event_position(3), Some(&(0, 120)));
    // Decode then encode reproduces the file byte for byte.
    assert_eq!(back.as_bytes(), bytes);
}

#[test]
fn test_track_gaps_serialize_as_empty_chunks() {
    let mut midi = MIDI::new();
    midi.insert_event(0, 0, NoteOn(0, 60, 90)).unwrap();
    midi.insert_event(2, 0, NoteOff(0, 60, 0)).unwrap();
    assert_eq!(midi.count_tracks(), 2);
    let bytes = midi.as_bytes();
    // The header's track count is derived from the greatest index in use.
    assert_eq!(&bytes[10..12], &[0x00, 0x03]);
    let back = MIDI::from_bytes(bytes.clone()).unwrap();
    // The synthesized end-of-track events are dropped again on read, so the
    // gap track stays empty and the cycle is byte-exact.
    assert_eq!(back.count_tracks(), 2);
    assert_eq!(back.events.len(), 2);
    assert_eq!(back.as_bytes(), bytes);
}

#[test]
fn test_serialized_header_shape() {
    let midi = MIDI::new();
    let bytes = midi.as_bytes();
    assert_eq!(
        bytes,
        vec![0x4D, 0x54, 0x68, 0x64, 0x00, 0x00, 0x00, 0x06, 0x00, 0x01, 0x00, 0x00, 0x00, 0x78]
    );
}

#[test]
fn test_clamp_uspqn_bounds() {
    assert_eq!(apres::event::clamp_uspqn(0), 1);
    assert_eq!(apres::event::clamp_uspqn(1), 1);
    assert_eq!(apres::event::clamp_uspqn(500000), 500000);
    assert_eq!(apres::event::clamp_uspqn(0x00FFFFFF), 0x00FFFFFF);
    assert_eq!(apres::event::clamp_uspqn(0x01000000), 0x00FFFFFF);
    assert_eq!(apres::event::clamp_uspqn(16_777_927), 0x00FFFFFF);
}
