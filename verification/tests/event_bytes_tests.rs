use apres::event::MIDIEvent::{
    AfterTouch, ChannelPressure, ChannelPrefix, ControlChange, CopyRightNotice, CuePoint,
    EndOfTrack, InstrumentName, KeySignature, Lyric, Marker, NoteOff, NoteOn, PitchWheelChange,
    ProgramChange, SMPTEOffset, SequenceNumber, SetTempo, SystemExclusive, Text, TimeSignature,
    TrackName,
};
use apres::varlen::to_variable_length_bytes;

#[test]
fn tests_test_sequence_number_event() {
    let mut event = SequenceNumber(1);
    assert_eq!(event.as_bytes().as_slice(), &[0xFF, 0x00, 0x02, 0x00, 0x01]);
    event = SequenceNumber(13607);
    assert_eq!(event.as_bytes().as_slice(), &[0xFF, 0x00, 0x02, 0x35, 0x27]);
}

#[test]
fn tests_test_text_event() {
    let some_text = "This is some text".to_string();
    let text_len_bytes = to_variable_length_bytes(some_text.len());

    let event = Text(some_text.clone());
    let mut compare_vec = vec![0xFF, 0x01];
    compare_vec.extend(text_len_bytes.iter().copied());
    compare_vec.extend(some_text.as_bytes().iter().copied());
    assert_eq!(event.as_bytes().as_slice(), compare_vec.as_slice());
}

#[test]
fn tests_test_copyright_notice_event() {
    let some_text = "This is some text".to_string();
    let text_len_bytes = to_variable_length_bytes(some_text.len());

    let event = CopyRightNotice(some_text.clone());
    let mut compare_vec = vec![0xFF, 0x02];
    compare_vec.extend(text_len_bytes.iter().copied());
    compare_vec.extend(some_text.as_bytes().iter().copied());
    assert_eq!(event.as_bytes().as_slice(), compare_vec.as_slice());
}

#[test]
fn tests_test_track_name_event() {
    let some_text = "Some Track Name".to_string();
    let text_len_bytes = to_variable_length_bytes(some_text.len());

    let event = TrackName(some_text.clone());
    let mut compare_vec = vec![0xFF, 0x03];
    compare_vec.extend(text_len_bytes.iter().copied());
    compare_vec.extend(some_text.as_bytes().iter().copied());
    assert_eq!(event.as_bytes().as_slice(), compare_vec.as_slice());
}

#[test]
fn tests_test_instrument_name_event() {
    let some_text = "Some Instrument Name".to_string();
    let text_len_bytes = to_variable_length_bytes(some_text.len());

    let event = InstrumentName(some_text.clone());
    let mut compare_vec = vec![0xFF, 0x04];
    compare_vec.extend(text_len_bytes.iter().copied());
    compare_vec.extend(some_text.as_bytes().iter().copied());
    assert_eq!(event.as_bytes().as_slice(), compare_vec.as_slice());
}

#[test]
fn tests_test_lyric_event() {
    let some_text = "Here are some Lyrics.".to_string();
    let text_len_bytes = to_variable_length_bytes(some_text.len());

    let event = Lyric(some_text.clone());
    let mut compare_vec = vec![0xFF, 0x05];
    compare_vec.extend(text_len_bytes.iter().copied());
    compare_vec.extend(some_text.as_bytes().iter().copied());
    assert_eq!(event.as_bytes().as_slice(), compare_vec.as_slice());
}

#[test]
fn tests_test_marker_event() {
    let some_text = "marker text".to_string();
    let text_len_bytes = to_variable_length_bytes(some_text.len());

    let event = Marker(some_text.clone());
    let mut compare_vec = vec![0xFF, 0x06];
    compare_vec.extend(text_len_bytes.iter().copied());
    compare_vec.extend(some_text.as_bytes().iter().copied());
    assert_eq!(event.as_bytes().as_slice(), compare_vec.as_slice());
}

#[test]
fn tests_test_cue_point_event() {
    let some_text = "cue point text".to_string();
    let text_len_bytes = to_variable_length_bytes(some_text.len());

    let event = CuePoint(some_text.clone());
    let mut compare_vec = vec![0xFF, 0x07];
    compare_vec.extend(text_len_bytes.iter().copied());
    compare_vec.extend(some_text.as_bytes().iter().copied());
    assert_eq!(event.as_bytes().as_slice(), compare_vec.as_slice());
}

#[test]
fn tests_test_end_of_track_event() {
    let event = EndOfTrack;
    assert_eq!(event.as_bytes().as_slice(), [0xFF, 0x2F, 0x00]);
}

#[test]
fn tests_test_channel_prefix_event() {
    for i in std::u8::MIN..std::u8::MAX {
        let event = ChannelPrefix(i as u8);
        assert_eq!(event.as_bytes().as_slice(), [0xFF, 0x20, 0x01, i]);
    }
}

#[test]
fn tests_test_set_tempo_event() {
    let test_cases_bpm = vec![(120, 500000), (280, 214285), (1, 0x00FFFFFF), (60_000_000, 1)];
    for (_bpm, expected_uspqn) in test_cases_bpm.iter() {
        let event = SetTempo(*expected_uspqn);
        assert_eq!(
            event.as_bytes().as_slice(),
            [
                0xFF,
                0x51,
                0x03,
                ((*expected_uspqn / 256u32.pow(2)) % 256) as u8,
                ((*expected_uspqn / 256u32.pow(1)) % 256) as u8,
                (*expected_uspqn % 256) as u8
            ]
        );
    }
}

#[test]
fn tests_test_smpte_offset_event() {
    let event = SMPTEOffset(1, 2, 3, 4, 5);
    assert_eq!(
        event.as_bytes().as_slice(),
        [0xFF, 0x54, 0x05, 0x01, 0x02, 0x03, 0x04, 0x05]
    );
}

#[test]
fn tests_test_time_signature_event() {
    let event = TimeSignature(4, 4, 32, 3);
    assert_eq!(event.as_bytes().as_slice(), [0xFF, 0x58, 0x04, 0x04, 0x04, 0x20, 0x03]);
}

#[test]
fn tests_test_key_signature_event() {
    let event = KeySignature("A".to_string());
    assert_eq!(event.as_bytes().as_slice(), [0xFF, 0x59, 0x02, 0x03, 0x00]);
}

#[test]
fn tests_test_sequence_specific_event() {
    let event = SystemExclusive(vec![0x00]);
    assert_eq!(event.as_bytes().as_slice(), [0xF0, 0x00, 0xF7]);
}

#[test]
fn tests_test_note_on_event() {
    let event = NoteOn(14, 23, 33);
    assert_eq!(event.as_bytes().as_slice(), [0x9E, 0x17, 0x21]);
}

#[test]
fn tests_test_note_off_event() {
    let event = NoteOff(14, 23, 33);
    assert_eq!(event.as_bytes().as_slice(), [0x8E, 0x17, 0x21]);
}

#[test]
fn tests_test_aftertouch_event() {
    let event = AfterTouch(14, 23, 33);
    assert_eq!(event.as_bytes().as_slice(), [0xAE, 0x17, 0x21]);
}

#[test]
fn tests_test_control_change_event() {
    let event = ControlChange(14, 23, 33);
    assert_eq!(event.as_bytes().as_slice(), [0xBE, 0x17, 0x21]);
}

#[test]
fn tests_test_program_change_event() {
    let event = ProgramChange(14, 23);
    assert_eq!(event.as_bytes().as_slice(), [0xCE, 0x17]);
}

#[test]
fn tests_test_channel_pressure_event() {
    let event = ChannelPressure(14, 23);
    assert_eq!(event.as_bytes().as_slice(), [0xDE, 0x17]);
}

// The engine stores the pitch wheel in its unsigned 14-bit wire form; the
// wire values below are the documented images of -1.0, -0.5, 0.0, 0.5 and
// 1.0 under the boundary-exact normalized-float mapping.
#[test]
fn tests_test_pitchwheel_change_event() {
    let test_cases: Vec<(u16, (u8, u8))> = vec![
        (0x0000, (0, 0)),
        (0x1000, (0x20, 0x00)),
        (0x2000, (0x40, 0x00)),
        (0x2FFF, (0x5f, 0x7F)),
        (0x3FFF, (0x7F, 0x7F)),
    ];
    for (input_value, (msb, lsb)) in test_cases.iter() {
        let event = PitchWheelChange(14, *input_value);
        match event {
            PitchWheelChange(_, v) => {
                assert_eq!(v, *input_value);
                assert_eq!(event.as_bytes().as_slice(), [0xEE, *lsb, *msb]);
            }
            _ => {
                assert!(false);
            }
        }
    }
}

#[test]
fn tests_test_system_exclusive_event() {
    let event = SystemExclusive(vec![0, 0, 1, 0]);
    assert_eq!(event.as_bytes().as_slice(), [0xF0, 0x00, 0x00, 0x01, 0x00, 0xF7]);
}

#[test]
fn test_chords() {
    assert_eq!(apres::keysig::get_chord_name_from_mi_sf(0, 253), "Eb");
    assert_eq!(apres::keysig::get_chord_name_from_mi_sf(1, 7), "A#m");
}
