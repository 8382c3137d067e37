use apres::event::MIDIEvent;
use apres::event::MIDIEvent::{
    NoteOff, NoteOn, PitchWheelChange, ProgramChange, Reset, SystemExclusive, TimeCode,
};
use apres::live::InstanceData;
use apres::props::{get_midi_property, get_midi_property_count, get_midi_type_code};

fn feed_all(instance: &mut InstanceData, bytes: &[u8]) {
    for b in bytes.iter() {
        instance.feed(*b);
    }
}

#[test]
fn test_live_channel_event() {
    let mut instance = InstanceData::new();
    feed_all(&mut instance, &[0x93, 0x40, 0x64]);
    assert_eq!(instance.poll_event(), Some(NoteOn(3, 0x40, 0x64)));
    assert_eq!(instance.pending_len(), 0);
}

#[test]
fn test_live_note_on_velocity_zero_reads_as_note_off() {
    let mut instance = InstanceData::new();
    feed_all(&mut instance, &[0x90, 0x40, 0x00]);
    assert_eq!(instance.poll_event(), Some(NoteOff(0, 0x40, 0x00)));
}

#[test]
fn test_live_incomplete_message_waits() {
    let mut instance = InstanceData::new();
    instance.feed(0xC5);
    assert_eq!(instance.poll_event(), None);
    instance.feed(0x07);
    assert_eq!(instance.poll_event(), Some(ProgramChange(5, 7)));
}

#[test]
fn test_live_data_byte_in_lead_position_is_discarded() {
    let mut instance = InstanceData::new();
    feed_all(&mut instance, &[0x42, 0xFF]);
    assert_eq!(instance.poll_event(), None);
    assert_eq!(instance.poll_event(), Some(Reset));
}

#[test]
fn test_live_sysex_and_time_code() {
    let mut instance = InstanceData::new();
    feed_all(&mut instance, &[0xF0, 0x01, 0x02, 0xF7]);
    assert_eq!(instance.poll_event(), Some(SystemExclusive(vec![0x01, 0x02])));

    feed_all(&mut instance, &[0xF1, 0x65, 0x10, 0x20, 0x05]);
    assert_eq!(instance.poll_event(), Some(TimeCode(3, 5, 0x10, 0x20, 0x05)));
}

#[test]
fn test_live_round_trip_through_decoder() {
    let cases = vec![
        NoteOn(3, 10, 20),
        MIDIEvent::TimeCode(2, 5, 6, 7, 8),
        Reset,
        SystemExclusive(vec![9, 8]),
        MIDIEvent::SongSelect(4),
        MIDIEvent::Volume(1, 99),
    ];
    for e in cases.into_iter() {
        let mut instance = InstanceData::new();
        for b in e.as_bytes() {
            instance.feed(b);
        }
        assert_eq!(instance.poll_event(), Some(e));
        assert_eq!(instance.pending_len(), 0);
    }
}

#[test]
fn test_property_access() {
    let e = NoteOn(2, 0x40, 0x64);
    assert_eq!(get_midi_type_code(&e), 15);
    assert_eq!(get_midi_property_count(&e), 3);
    assert_eq!(get_midi_property(&e, 0), vec![2]);
    assert_eq!(get_midi_property(&e, 1), vec![0x40]);
    assert_eq!(get_midi_property(&e, 2), vec![0x64]);

    let t = MIDIEvent::SetTempo(500000);
    assert_eq!(get_midi_type_code(&t), 10);
    assert_eq!(get_midi_property_count(&t), 1);
    assert_eq!(get_midi_property(&t, 0), vec![0x07, 0xA1, 0x20]);

    let k = MIDIEvent::KeySignature("A".to_string());
    assert_eq!(get_midi_type_code(&k), 13);
    assert_eq!(get_midi_property(&k, 0), vec![0x00]);
    assert_eq!(get_midi_property(&k, 1), vec![0x03]);

    let w = PitchWheelChange(14, 0x2000);
    assert_eq!(get_midi_property(&w, 1), vec![0x20, 0x00]);

    let x = MIDIEvent::Text("hi".to_string());
    assert_eq!(get_midi_property(&x, 0), vec![0x68, 0x69]);
}

#[test]
fn test_event_round_trip_through_parser() {
    let cases: Vec<MIDIEvent> = vec![
        MIDIEvent::SequenceNumber(13607),
        MIDIEvent::Text("round trip".to_string()),
        MIDIEvent::KeySignature("Ebm".to_string()),
        MIDIEvent::SetTempo(500000),
        MIDIEvent::SMPTEOffset(1, 2, 3, 4, 5),
        MIDIEvent::TimeSignature(4, 4, 32, 3),
        MIDIEvent::SequencerSpecific(vec![1, 2, 3]),
        MIDIEvent::ChannelPrefix(9),
        MIDIEvent::EndOfTrack,
        NoteOn(14, 23, 33),
        NoteOff(14, 23, 33),
        MIDIEvent::AfterTouch(1, 2, 3),
        MIDIEvent::ControlChange(0, 0x03, 5),
        ProgramChange(14, 23),
        MIDIEvent::ChannelPressure(14, 23),
        PitchWheelChange(14, 0x1234),
        SystemExclusive(vec![1, 2, 3]),
        MIDIEvent::MTCQuarterFrame(3, 9),
        MIDIEvent::SongPositionPointer(0x1234),
        MIDIEvent::SongSelect(0x55),
        MIDIEvent::TuneRequest,
        MIDIEvent::BankSelect(2, 3),
        MIDIEvent::ModulationWheelLSB(4, 5),
        MIDIEvent::Volume(6, 7),
        MIDIEvent::HoldPedal(8, 9),
        MIDIEvent::DataIncrement(10),
        MIDIEvent::AllNotesOff(11),
        MIDIEvent::MonophonicOperation(12, 13),
        MIDIEvent::PolyphonicOperation(14),
    ];
    for e in cases.into_iter() {
        let mut bytes = e.as_bytes();
        let back = MIDIEvent::from_bytes(&mut bytes, 0).unwrap();
        assert_eq!(back, e);
        assert!(bytes.is_empty());
    }
}

#[test]
fn test_note_on_velocity_zero_canonicalizes() {
    let mut bytes = NoteOn(5, 60, 0).as_bytes();
    let back = MIDIEvent::from_bytes(&mut bytes, 0).unwrap();
    assert_eq!(back, NoteOff(5, 60, 0));
}

#[test]
fn test_running_status_fallback() {
    // A lead byte below 0x80 is data; the fallback status governs it.
    let mut bytes = vec![0x40, 0x64];
    let back = MIDIEvent::from_bytes(&mut bytes, 0x93).unwrap();
    assert_eq!(back, NoteOn(3, 0x40, 0x64));

    // With no usable fallback the same bytes are invalid.
    let mut bytes2 = vec![0x40, 0x64];
    assert!(MIDIEvent::from_bytes(&mut bytes2, 0).is_err());
}

#[test]
fn test_unknown_meta_error_carries_event_bytes() {
    let mut bytes = vec![0xFF, 0x60, 0x01, 0x00, 0x99];
    match MIDIEvent::from_bytes(&mut bytes, 0) {
        Err(apres::error::ApresError::UnknownMetaEvent(b)) => {
            assert_eq!(b, vec![0xFF, 0x60, 0x01, 0x00]);
        }
        _ => panic!("an unknown meta sub-type must be reported"),
    }
    // The skipped event was consumed; the stream stays aligned.
    assert_eq!(bytes, vec![0x99]);
}

#[test]
fn test_illegible_string_error_carries_payload() {
    let mut bytes = vec![0xFF, 0x01, 0x02, 0xC3, 0x28];
    match MIDIEvent::from_bytes(&mut bytes, 0) {
        Err(apres::error::ApresError::IllegibleString(b)) => {
            assert_eq!(b, vec![0xC3, 0x28]);
        }
        _ => panic!("a non-UTF-8 text payload must be reported"),
    }
    assert!(bytes.is_empty());
}

#[test]
fn test_truncated_event_is_invalid() {
    let mut bytes = vec![0x90, 0x40];
    match MIDIEvent::from_bytes(&mut bytes, 0) {
        Err(apres::error::ApresError::InvalidBytes(_)) => (),
        _ => panic!("a starved read must be fatal"),
    }
    // Nothing was consumed.
    assert_eq!(bytes, vec![0x90, 0x40]);
}

#[test]
fn test_live_undefined_status_is_discarded() {
    let mut instance = InstanceData::new();
    feed_all(&mut instance, &[0xF4, 0xF8]);
    assert_eq!(instance.poll_event(), None);
    assert_eq!(instance.poll_event(), Some(MIDIEvent::MIDIClock));
}

#[test]
fn test_key_name_lookup_inverse() {
    let names = vec![
        "C", "G", "D", "A", "E", "B", "F#", "C#", "F", "Bb", "Eb", "Ab", "Db", "Gb", "Cb", "Am",
        "Em", "Bm", "F#m", "C#m", "G#m", "D#m", "A#m", "Dm", "Gm", "Cm", "Fm", "Bbm", "Ebm",
        "Abm",
    ];
    for name in names.into_iter() {
        let (mi, sf) = apres::keysig::get_mi_sf(&name.to_string());
        assert_eq!(apres::keysig::get_chord_name_from_mi_sf(mi, sf), name);
    }
    // An unknown name reads as C major.
    assert_eq!(apres::keysig::get_mi_sf(&"X".to_string()), (0, 0));
}
