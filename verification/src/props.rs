//! Numeric property access for the boundary layer: every event kind exposes
//! a small, fixed list of properties, each read as a byte vector by index.

use crate::event::MIDIEvent;
use crate::keysig::key_mi_sf;
use vstd::prelude::*;
use vstd::string::StrSliceExecFns;
use vstd::utf8::encode_utf8;

verus! {

/// The stable type code of an event kind.
pub open spec fn midi_type_code(e: MIDIEvent) -> u8 {
    match e {
        MIDIEvent::SequenceNumber(_) => 22,
        MIDIEvent::Text(_) => 1,
        MIDIEvent::CopyRightNotice(_) => 2,
        MIDIEvent::TrackName(_) => 3,
        MIDIEvent::InstrumentName(_) => 4,
        MIDIEvent::Lyric(_) => 5,
        MIDIEvent::Marker(_) => 6,
        MIDIEvent::CuePoint(_) => 7,
        MIDIEvent::EndOfTrack => 8,
        MIDIEvent::ChannelPrefix(_) => 9,
        MIDIEvent::SetTempo(_) => 10,
        MIDIEvent::SMPTEOffset(_, _, _, _, _) => 11,
        MIDIEvent::TimeSignature(_, _, _, _) => 12,
        MIDIEvent::KeySignature(_) => 13,
        MIDIEvent::SequencerSpecific(_) => 14,
        MIDIEvent::NoteOn(_, _, _) => 15,
        MIDIEvent::NoteOff(_, _, _) => 16,
        MIDIEvent::AfterTouch(_, _, _) => 17,
        MIDIEvent::ControlChange(_, _, _) => 18,
        MIDIEvent::ProgramChange(_, _) => 19,
        MIDIEvent::ChannelPressure(_, _) => 20,
        MIDIEvent::PitchWheelChange(_, _) => 21,
        MIDIEvent::SystemExclusive(_) => 23,
        MIDIEvent::MTCQuarterFrame(_, _) => 24,
        MIDIEvent::SongPositionPointer(_) => 25,
        MIDIEvent::SongSelect(_) => 26,
        MIDIEvent::TuneRequest => 27,
        MIDIEvent::MIDIClock => 28,
        MIDIEvent::MIDIStart => 29,
        MIDIEvent::MIDIContinue => 30,
        MIDIEvent::MIDIStop => 31,
        MIDIEvent::ActiveSense => 32,
        MIDIEvent::Reset => 33,
        MIDIEvent::BankSelect(_, _) => 34,
        MIDIEvent::BankSelectLSB(_, _) => 35,
        MIDIEvent::ModulationWheel(_, _) => 36,
        MIDIEvent::ModulationWheelLSB(_, _) => 37,
        MIDIEvent::BreathController(_, _) => 38,
        MIDIEvent::BreathControllerLSB(_, _) => 39,
        MIDIEvent::FootPedal(_, _) => 40,
        MIDIEvent::FootPedalLSB(_, _) => 41,
        MIDIEvent::PortamentoTime(_, _) => 42,
        MIDIEvent::PortamentoTimeLSB(_, _) => 43,
        MIDIEvent::DataEntry(_, _) => 44,
        MIDIEvent::DataEntryLSB(_, _) => 45,
        MIDIEvent::Volume(_, _) => 46,
        MIDIEvent::VolumeLSB(_, _) => 47,
        MIDIEvent::Balance(_, _) => 48,
        MIDIEvent::BalanceLSB(_, _) => 49,
        MIDIEvent::Pan(_, _) => 50,
        MIDIEvent::PanLSB(_, _) => 51,
        MIDIEvent::Expression(_, _) => 52,
        MIDIEvent::ExpressionLSB(_, _) => 53,
        MIDIEvent::EffectControl1(_, _) => 54,
        MIDIEvent::EffectControl1LSB(_, _) => 55,
        MIDIEvent::EffectControl2(_, _) => 56,
        MIDIEvent::EffectControl2LSB(_, _) => 57,
        MIDIEvent::HoldPedal(_, _) => 58,
        MIDIEvent::Portamento(_, _) => 59,
        MIDIEvent::Sustenuto(_, _) => 60,
        MIDIEvent::SoftPedal(_, _) => 61,
        MIDIEvent::Legato(_, _) => 62,
        MIDIEvent::Hold2Pedal(_, _) => 63,
        MIDIEvent::SoundVariation(_, _) => 64,
        MIDIEvent::SoundTimbre(_, _) => 65,
        MIDIEvent::SoundReleaseTime(_, _) => 66,
        MIDIEvent::SoundAttack(_, _) => 67,
        MIDIEvent::SoundBrightness(_, _) => 68,
        MIDIEvent::SoundControl1(_, _) => 69,
        MIDIEvent::SoundControl2(_, _) => 70,
        MIDIEvent::SoundControl3(_, _) => 71,
        MIDIEvent::SoundControl4(_, _) => 72,
        MIDIEvent::SoundControl5(_, _) => 73,
        MIDIEvent::GeneralPurpose1(_, _) => 74,
        MIDIEvent::GeneralPurpose1LSB(_, _) => 75,
        MIDIEvent::GeneralPurpose2(_, _) => 76,
        MIDIEvent::GeneralPurpose2LSB(_, _) => 77,
        MIDIEvent::GeneralPurpose3(_, _) => 78,
        MIDIEvent::GeneralPurpose3LSB(_, _) => 79,
        MIDIEvent::GeneralPurpose4(_, _) => 80,
        MIDIEvent::GeneralPurpose4LSB(_, _) => 81,
        MIDIEvent::GeneralPurpose5(_, _) => 82,
        MIDIEvent::GeneralPurpose6(_, _) => 83,
        MIDIEvent::GeneralPurpose7(_, _) => 84,
        MIDIEvent::GeneralPurpose8(_, _) => 85,
        MIDIEvent::EffectsLevel(_, _) => 86,
        MIDIEvent::TremuloLevel(_, _) => 87,
        MIDIEvent::ChorusLevel(_, _) => 88,
        MIDIEvent::CelesteLevel(_, _) => 89,
        MIDIEvent::PhaserLevel(_, _) => 90,
        MIDIEvent::DataIncrement(_) => 91,
        MIDIEvent::DataDecrement(_) => 92,
        MIDIEvent::RegisteredParameterNumber(_, _) => 93,
        MIDIEvent::RegisteredParameterNumberLSB(_, _) => 94,
        MIDIEvent::NonRegisteredParameterNumber(_, _) => 95,
        MIDIEvent::NonRegisteredParameterNumberLSB(_, _) => 96,
        MIDIEvent::AllControllersOff(_) => 97,
        MIDIEvent::LocalControl(_, _) => 98,
        MIDIEvent::AllNotesOff(_) => 99,
        MIDIEvent::AllSoundOff(_) => 100,
        MIDIEvent::OmniOff(_) => 101,
        MIDIEvent::OmniOn(_) => 102,
        MIDIEvent::MonophonicOperation(_, _) => 103,
        MIDIEvent::PolyphonicOperation(_) => 104,
        MIDIEvent::TimeCode(_, _, _, _, _) => 105,
    }
}

/// How many properties an event kind exposes.
pub open spec fn midi_property_count(e: MIDIEvent) -> u8 {
    match e {
        MIDIEvent::SequenceNumber(_) => 1,
        MIDIEvent::Text(_)
        | MIDIEvent::CopyRightNotice(_)
        | MIDIEvent::TrackName(_)
        | MIDIEvent::InstrumentName(_)
        | MIDIEvent::Lyric(_)
        | MIDIEvent::Marker(_)
        | MIDIEvent::CuePoint(_) => 1,
        MIDIEvent::ChannelPrefix(_) => 1,
        MIDIEvent::SetTempo(_) => 1,
        MIDIEvent::SMPTEOffset(_, _, _, _, _) => 5,
        MIDIEvent::TimeSignature(_, _, _, _) => 4,
        MIDIEvent::KeySignature(_) => 2,
        MIDIEvent::SequencerSpecific(_) | MIDIEvent::SystemExclusive(_) => 1,
        MIDIEvent::NoteOn(_, _, _) | MIDIEvent::NoteOff(_, _, _) | MIDIEvent::AfterTouch(
            _,
            _,
            _,
        ) => 3,
        MIDIEvent::ControlChange(_, _, _) => 3,
        MIDIEvent::ProgramChange(_, _) => 2,
        MIDIEvent::ChannelPressure(_, _) => 2,
        MIDIEvent::PitchWheelChange(_, _) => 2,
        MIDIEvent::MTCQuarterFrame(_, _) => 2,
        MIDIEvent::SongPositionPointer(_) => 1,
        MIDIEvent::SongSelect(_) => 1,
        MIDIEvent::TimeCode(_, _, _, _, _) => 5,
        MIDIEvent::DataIncrement(_)
        | MIDIEvent::DataDecrement(_)
        | MIDIEvent::AllControllersOff(_)
        | MIDIEvent::AllNotesOff(_)
        | MIDIEvent::AllSoundOff(_)
        | MIDIEvent::OmniOff(_)
        | MIDIEvent::OmniOn(_)
        | MIDIEvent::PolyphonicOperation(_) => 1,
        MIDIEvent::EndOfTrack => 0,
        MIDIEvent::TuneRequest
        | MIDIEvent::MIDIClock
        | MIDIEvent::MIDIStart
        | MIDIEvent::MIDIContinue
        | MIDIEvent::MIDIStop
        | MIDIEvent::ActiveSense
        | MIDIEvent::Reset => 0,
        MIDIEvent::BankSelect(_, _)
        | MIDIEvent::BankSelectLSB(_, _)
        | MIDIEvent::ModulationWheel(_, _)
        | MIDIEvent::ModulationWheelLSB(_, _)
        | MIDIEvent::BreathController(_, _)
        | MIDIEvent::BreathControllerLSB(_, _)
        | MIDIEvent::FootPedal(_, _)
        | MIDIEvent::FootPedalLSB(_, _)
        | MIDIEvent::PortamentoTime(_, _)
        | MIDIEvent::PortamentoTimeLSB(_, _)
        | MIDIEvent::DataEntry(_, _)
        | MIDIEvent::DataEntryLSB(_, _)
        | MIDIEvent::Volume(_, _)
        | MIDIEvent::VolumeLSB(_, _)
        | MIDIEvent::Balance(_, _)
        | MIDIEvent::BalanceLSB(_, _)
        | MIDIEvent::Pan(_, _)
        | MIDIEvent::PanLSB(_, _)
        | MIDIEvent::Expression(_, _)
        | MIDIEvent::ExpressionLSB(_, _)
        | MIDIEvent::EffectControl1(_, _)
        | MIDIEvent::EffectControl1LSB(_, _)
        | MIDIEvent::EffectControl2(_, _)
        | MIDIEvent::EffectControl2LSB(_, _)
        | MIDIEvent::HoldPedal(_, _)
        | MIDIEvent::Portamento(_, _)
        | MIDIEvent::Sustenuto(_, _)
        | MIDIEvent::SoftPedal(_, _)
        | MIDIEvent::Legato(_, _)
        | MIDIEvent::Hold2Pedal(_, _)
        | MIDIEvent::SoundVariation(_, _)
        | MIDIEvent::SoundTimbre(_, _)
        | MIDIEvent::SoundReleaseTime(_, _)
        | MIDIEvent::SoundAttack(_, _)
        | MIDIEvent::SoundBrightness(_, _)
        | MIDIEvent::SoundControl1(_, _)
        | MIDIEvent::SoundControl2(_, _)
        | MIDIEvent::SoundControl3(_, _)
        | MIDIEvent::SoundControl4(_, _)
        | MIDIEvent::SoundControl5(_, _)
        | MIDIEvent::GeneralPurpose1(_, _)
        | MIDIEvent::GeneralPurpose1LSB(_, _)
        | MIDIEvent::GeneralPurpose2(_, _)
        | MIDIEvent::GeneralPurpose2LSB(_, _)
        | MIDIEvent::GeneralPurpose3(_, _)
        | MIDIEvent::GeneralPurpose3LSB(_, _)
        | MIDIEvent::GeneralPurpose4(_, _)
        | MIDIEvent::GeneralPurpose4LSB(_, _)
        | MIDIEvent::GeneralPurpose5(_, _)
        | MIDIEvent::GeneralPurpose6(_, _)
        | MIDIEvent::GeneralPurpose7(_, _)
        | MIDIEvent::GeneralPurpose8(_, _)
        | MIDIEvent::EffectsLevel(_, _)
        | MIDIEvent::TremuloLevel(_, _)
        | MIDIEvent::ChorusLevel(_, _)
        | MIDIEvent::CelesteLevel(_, _)
        | MIDIEvent::PhaserLevel(_, _)
        | MIDIEvent::RegisteredParameterNumber(_, _)
        | MIDIEvent::RegisteredParameterNumberLSB(_, _)
        | MIDIEvent::NonRegisteredParameterNumber(_, _)
        | MIDIEvent::NonRegisteredParameterNumberLSB(_, _)
        | MIDIEvent::LocalControl(_, _)
        | MIDIEvent::MonophonicOperation(_, _) => 2,
    }
}

/// A one-field event's property list: the channel at index 0.
pub open spec fn prop_one(c: u8, idx: u8) -> Seq<u8> {
    seq![c]
}

/// A channel-and-value event's property list.
pub open spec fn prop_two(c: u8, v: u8, idx: u8) -> Seq<u8> {
    if idx == 0 {
        seq![c]
    } else if idx == 1 {
        seq![v]
    } else {
        Seq::empty()
    }
}

/// The bytes of property `idx` of `e`, as the boundary layer hands them out.
pub open spec fn midi_property(e: MIDIEvent, idx: u8) -> Seq<u8> {
    match e {
        MIDIEvent::SequenceNumber(n) => seq![(n / 0x100) as u8, (n % 0x100) as u8],
        MIDIEvent::Text(s)
        | MIDIEvent::CopyRightNotice(s)
        | MIDIEvent::TrackName(s)
        | MIDIEvent::InstrumentName(s)
        | MIDIEvent::Lyric(s)
        | MIDIEvent::Marker(s)
        | MIDIEvent::CuePoint(s) => encode_utf8(s@),
        MIDIEvent::ChannelPrefix(c) => seq![c],
        MIDIEvent::SetTempo(t) => seq![
            ((t / 0x10000) % 0x100) as u8,
            ((t / 0x100) % 0x100) as u8,
            (t % 0x100) as u8,
        ],
        MIDIEvent::SMPTEOffset(h, m, s, ff, fr) => if idx == 0 {
            seq![h]
        } else if idx == 1 {
            seq![m]
        } else if idx == 2 {
            seq![s]
        } else if idx == 3 {
            seq![ff]
        } else if idx == 4 {
            seq![fr]
        } else {
            seq![0u8]
        },
        MIDIEvent::TimeSignature(n, d, c, t) => if idx == 0 {
            seq![n]
        } else if idx == 1 {
            seq![d]
        } else if idx == 2 {
            seq![c]
        } else if idx == 3 {
            seq![t]
        } else {
            seq![0u8]
        },
        MIDIEvent::KeySignature(k) => if idx == 0 {
            seq![key_mi_sf(k@).0]
        } else if idx == 1 {
            seq![key_mi_sf(k@).1]
        } else {
            Seq::empty()
        },
        MIDIEvent::SequencerSpecific(d) | MIDIEvent::SystemExclusive(d) => d@,
        MIDIEvent::NoteOn(c, n, v) | MIDIEvent::NoteOff(c, n, v) | MIDIEvent::AfterTouch(
            c,
            n,
            v,
        ) => if idx == 0 {
            seq![c]
        } else if idx == 1 {
            seq![n]
        } else if idx == 2 {
            seq![v]
        } else {
            Seq::empty()
        },
        MIDIEvent::ControlChange(c, n, v) => if idx == 0 {
            seq![c]
        } else if idx == 1 {
            seq![n]
        } else if idx == 2 {
            seq![v]
        } else {
            Seq::empty()
        },
        MIDIEvent::ProgramChange(c, p) => prop_two(c, p, idx),
        MIDIEvent::ChannelPressure(c, p) => prop_two(c, p, idx),
        MIDIEvent::PitchWheelChange(c, w) => if idx == 0 {
            seq![c]
        } else if idx == 1 {
            seq![(w / 0x100) as u8, (w % 0x100) as u8]
        } else {
            Seq::empty()
        },
        MIDIEvent::MTCQuarterFrame(t, v) => prop_two(t, v, idx),
        MIDIEvent::SongPositionPointer(b) => seq![(b / 0x100) as u8, (b % 0x100) as u8],
        MIDIEvent::SongSelect(s) => seq![s & 0x7f],
        MIDIEvent::TimeCode(r, h, m, s, f) => if idx == 0 {
            seq![r]
        } else if idx == 1 {
            seq![h]
        } else if idx == 2 {
            seq![m]
        } else if idx == 3 {
            seq![s]
        } else if idx == 4 {
            seq![f]
        } else {
            Seq::empty()
        },
        MIDIEvent::DataIncrement(c)
        | MIDIEvent::DataDecrement(c)
        | MIDIEvent::AllControllersOff(c)
        | MIDIEvent::AllNotesOff(c)
        | MIDIEvent::AllSoundOff(c)
        | MIDIEvent::OmniOff(c)
        | MIDIEvent::OmniOn(c)
        | MIDIEvent::PolyphonicOperation(c) => prop_one(c, idx),
        MIDIEvent::BankSelect(c, v)
        | MIDIEvent::BankSelectLSB(c, v)
        | MIDIEvent::ModulationWheel(c, v)
        | MIDIEvent::ModulationWheelLSB(c, v)
        | MIDIEvent::BreathController(c, v)
        | MIDIEvent::BreathControllerLSB(c, v)
        | MIDIEvent::FootPedal(c, v)
        | MIDIEvent::FootPedalLSB(c, v)
        | MIDIEvent::PortamentoTime(c, v)
        | MIDIEvent::PortamentoTimeLSB(c, v)
        | MIDIEvent::DataEntry(c, v)
        | MIDIEvent::DataEntryLSB(c, v)
        | MIDIEvent::Volume(c, v)
        | MIDIEvent::VolumeLSB(c, v)
        | MIDIEvent::Balance(c, v)
        | MIDIEvent::BalanceLSB(c, v)
        | MIDIEvent::Pan(c, v)
        | MIDIEvent::PanLSB(c, v)
        | MIDIEvent::Expression(c, v)
        | MIDIEvent::ExpressionLSB(c, v)
        | MIDIEvent::EffectControl1(c, v)
        | MIDIEvent::EffectControl1LSB(c, v)
        | MIDIEvent::EffectControl2(c, v)
        | MIDIEvent::EffectControl2LSB(c, v)
        | MIDIEvent::HoldPedal(c, v)
        | MIDIEvent::Portamento(c, v)
        | MIDIEvent::Sustenuto(c, v)
        | MIDIEvent::SoftPedal(c, v)
        | MIDIEvent::Legato(c, v)
        | MIDIEvent::Hold2Pedal(c, v)
        | MIDIEvent::SoundVariation(c, v)
        | MIDIEvent::SoundTimbre(c, v)
        | MIDIEvent::SoundReleaseTime(c, v)
        | MIDIEvent::SoundAttack(c, v)
        | MIDIEvent::SoundBrightness(c, v)
        | MIDIEvent::SoundControl1(c, v)
        | MIDIEvent::SoundControl2(c, v)
        | MIDIEvent::SoundControl3(c, v)
        | MIDIEvent::SoundControl4(c, v)
        | MIDIEvent::SoundControl5(c, v)
        | MIDIEvent::GeneralPurpose1(c, v)
        | MIDIEvent::GeneralPurpose1LSB(c, v)
        | MIDIEvent::GeneralPurpose2(c, v)
        | MIDIEvent::GeneralPurpose2LSB(c, v)
        | MIDIEvent::GeneralPurpose3(c, v)
        | MIDIEvent::GeneralPurpose3LSB(c, v)
        | MIDIEvent::GeneralPurpose4(c, v)
        | MIDIEvent::GeneralPurpose4LSB(c, v)
        | MIDIEvent::GeneralPurpose5(c, v)
        | MIDIEvent::GeneralPurpose6(c, v)
        | MIDIEvent::GeneralPurpose7(c, v)
        | MIDIEvent::GeneralPurpose8(c, v)
        | MIDIEvent::EffectsLevel(c, v)
        | MIDIEvent::TremuloLevel(c, v)
        | MIDIEvent::ChorusLevel(c, v)
        | MIDIEvent::CelesteLevel(c, v)
        | MIDIEvent::PhaserLevel(c, v)
        | MIDIEvent::RegisteredParameterNumber(c, v)
        | MIDIEvent::RegisteredParameterNumberLSB(c, v)
        | MIDIEvent::NonRegisteredParameterNumber(c, v)
        | MIDIEvent::NonRegisteredParameterNumberLSB(c, v)
        | MIDIEvent::LocalControl(c, v)
        | MIDIEvent::MonophonicOperation(c, v) => prop_two(c, v, idx),
        MIDIEvent::EndOfTrack => Seq::empty(),
        MIDIEvent::TuneRequest
        | MIDIEvent::MIDIClock
        | MIDIEvent::MIDIStart
        | MIDIEvent::MIDIContinue
        | MIDIEvent::MIDIStop
        | MIDIEvent::ActiveSense
        | MIDIEvent::Reset => Seq::empty(),
    }
}

/// The stable type code of `midievent`.
pub fn get_midi_type_code(midievent: &MIDIEvent) -> (r: u8)
    ensures
        r == midi_type_code(*midievent),
{
    match midievent {
        MIDIEvent::SequenceNumber(_) => 22,
        MIDIEvent::Text(_) => 1,
        MIDIEvent::CopyRightNotice(_) => 2,
        MIDIEvent::TrackName(_) => 3,
        MIDIEvent::InstrumentName(_) => 4,
        MIDIEvent::Lyric(_) => 5,
        MIDIEvent::Marker(_) => 6,
        MIDIEvent::CuePoint(_) => 7,
        MIDIEvent::EndOfTrack => 8,
        MIDIEvent::ChannelPrefix(_) => 9,
        MIDIEvent::SetTempo(_) => 10,
        MIDIEvent::SMPTEOffset(_, _, _, _, _) => 11,
        MIDIEvent::TimeSignature(_, _, _, _) => 12,
        MIDIEvent::KeySignature(_) => 13,
        MIDIEvent::SequencerSpecific(_) => 14,
        MIDIEvent::NoteOn(_, _, _) => 15,
        MIDIEvent::NoteOff(_, _, _) => 16,
        MIDIEvent::AfterTouch(_, _, _) => 17,
        MIDIEvent::ControlChange(_, _, _) => 18,
        MIDIEvent::ProgramChange(_, _) => 19,
        MIDIEvent::ChannelPressure(_, _) => 20,
        MIDIEvent::PitchWheelChange(_, _) => 21,
        MIDIEvent::SystemExclusive(_) => 23,
        MIDIEvent::MTCQuarterFrame(_, _) => 24,
        MIDIEvent::SongPositionPointer(_) => 25,
        MIDIEvent::SongSelect(_) => 26,
        MIDIEvent::TuneRequest => 27,
        MIDIEvent::MIDIClock => 28,
        MIDIEvent::MIDIStart => 29,
        MIDIEvent::MIDIContinue => 30,
        MIDIEvent::MIDIStop => 31,
        MIDIEvent::ActiveSense => 32,
        MIDIEvent::Reset => 33,
        MIDIEvent::BankSelect(_, _) => 34,
        MIDIEvent::BankSelectLSB(_, _) => 35,
        MIDIEvent::ModulationWheel(_, _) => 36,
        MIDIEvent::ModulationWheelLSB(_, _) => 37,
        MIDIEvent::BreathController(_, _) => 38,
        MIDIEvent::BreathControllerLSB(_, _) => 39,
        MIDIEvent::FootPedal(_, _) => 40,
        MIDIEvent::FootPedalLSB(_, _) => 41,
        MIDIEvent::PortamentoTime(_, _) => 42,
        MIDIEvent::PortamentoTimeLSB(_, _) => 43,
        MIDIEvent::DataEntry(_, _) => 44,
        MIDIEvent::DataEntryLSB(_, _) => 45,
        MIDIEvent::Volume(_, _) => 46,
        MIDIEvent::VolumeLSB(_, _) => 47,
        MIDIEvent::Balance(_, _) => 48,
        MIDIEvent::BalanceLSB(_, _) => 49,
        MIDIEvent::Pan(_, _) => 50,
        MIDIEvent::PanLSB(_, _) => 51,
        MIDIEvent::Expression(_, _) => 52,
        MIDIEvent::ExpressionLSB(_, _) => 53,
        MIDIEvent::EffectControl1(_, _) => 54,
        MIDIEvent::EffectControl1LSB(_, _) => 55,
        MIDIEvent::EffectControl2(_, _) => 56,
        MIDIEvent::EffectControl2LSB(_, _) => 57,
        MIDIEvent::HoldPedal(_, _) => 58,
        MIDIEvent::Portamento(_, _) => 59,
        MIDIEvent::Sustenuto(_, _) => 60,
        MIDIEvent::SoftPedal(_, _) => 61,
        MIDIEvent::Legato(_, _) => 62,
        MIDIEvent::Hold2Pedal(_, _) => 63,
        MIDIEvent::SoundVariation(_, _) => 64,
        MIDIEvent::SoundTimbre(_, _) => 65,
        MIDIEvent::SoundReleaseTime(_, _) => 66,
        MIDIEvent::SoundAttack(_, _) => 67,
        MIDIEvent::SoundBrightness(_, _) => 68,
        MIDIEvent::SoundControl1(_, _) => 69,
        MIDIEvent::SoundControl2(_, _) => 70,
        MIDIEvent::SoundControl3(_, _) => 71,
        MIDIEvent::SoundControl4(_, _) => 72,
        MIDIEvent::SoundControl5(_, _) => 73,
        MIDIEvent::GeneralPurpose1(_, _) => 74,
        MIDIEvent::GeneralPurpose1LSB(_, _) => 75,
        MIDIEvent::GeneralPurpose2(_, _) => 76,
        MIDIEvent::GeneralPurpose2LSB(_, _) => 77,
        MIDIEvent::GeneralPurpose3(_, _) => 78,
        MIDIEvent::GeneralPurpose3LSB(_, _) => 79,
        MIDIEvent::GeneralPurpose4(_, _) => 80,
        MIDIEvent::GeneralPurpose4LSB(_, _) => 81,
        MIDIEvent::GeneralPurpose5(_, _) => 82,
        MIDIEvent::GeneralPurpose6(_, _) => 83,
        MIDIEvent::GeneralPurpose7(_, _) => 84,
        MIDIEvent::GeneralPurpose8(_, _) => 85,
        MIDIEvent::EffectsLevel(_, _) => 86,
        MIDIEvent::TremuloLevel(_, _) => 87,
        MIDIEvent::ChorusLevel(_, _) => 88,
        MIDIEvent::CelesteLevel(_, _) => 89,
        MIDIEvent::PhaserLevel(_, _) => 90,
        MIDIEvent::DataIncrement(_) => 91,
        MIDIEvent::DataDecrement(_) => 92,
        MIDIEvent::RegisteredParameterNumber(_, _) => 93,
        MIDIEvent::RegisteredParameterNumberLSB(_, _) => 94,
        MIDIEvent::NonRegisteredParameterNumber(_, _) => 95,
        MIDIEvent::NonRegisteredParameterNumberLSB(_, _) => 96,
        MIDIEvent::AllControllersOff(_) => 97,
        MIDIEvent::LocalControl(_, _) => 98,
        MIDIEvent::AllNotesOff(_) => 99,
        MIDIEvent::AllSoundOff(_) => 100,
        MIDIEvent::OmniOff(_) => 101,
        MIDIEvent::OmniOn(_) => 102,
        MIDIEvent::MonophonicOperation(_, _) => 103,
        MIDIEvent::PolyphonicOperation(_) => 104,
        MIDIEvent::TimeCode(_, _, _, _, _) => 105,
    }
}

/// How many properties `midievent` exposes.
pub fn get_midi_property_count(midievent: &MIDIEvent) -> (r: u8)
    ensures
        r == midi_property_count(*midievent),
{
    match midievent {
        MIDIEvent::SequenceNumber(_) => 1,
        MIDIEvent::Text(_)
        | MIDIEvent::CopyRightNotice(_)
        | MIDIEvent::TrackName(_)
        | MIDIEvent::InstrumentName(_)
        | MIDIEvent::Lyric(_)
        | MIDIEvent::Marker(_)
        | MIDIEvent::CuePoint(_) => 1,
        MIDIEvent::ChannelPrefix(_) => 1,
        MIDIEvent::SetTempo(_) => 1,
        MIDIEvent::SMPTEOffset(_, _, _, _, _) => 5,
        MIDIEvent::TimeSignature(_, _, _, _) => 4,
        MIDIEvent::KeySignature(_) => 2,
        MIDIEvent::SequencerSpecific(_) | MIDIEvent::SystemExclusive(_) => 1,
        MIDIEvent::NoteOn(_, _, _) | MIDIEvent::NoteOff(_, _, _) | MIDIEvent::AfterTouch(
            _,
            _,
            _,
        ) => 3,
        MIDIEvent::ControlChange(_, _, _) => 3,
        MIDIEvent::ProgramChange(_, _) => 2,
        MIDIEvent::ChannelPressure(_, _) => 2,
        MIDIEvent::PitchWheelChange(_, _) => 2,
        MIDIEvent::MTCQuarterFrame(_, _) => 2,
        MIDIEvent::SongPositionPointer(_) => 1,
        MIDIEvent::SongSelect(_) => 1,
        MIDIEvent::TimeCode(_, _, _, _, _) => 5,
        MIDIEvent::DataIncrement(_)
        | MIDIEvent::DataDecrement(_)
        | MIDIEvent::AllControllersOff(_)
        | MIDIEvent::AllNotesOff(_)
        | MIDIEvent::AllSoundOff(_)
        | MIDIEvent::OmniOff(_)
        | MIDIEvent::OmniOn(_)
        | MIDIEvent::PolyphonicOperation(_) => 1,
        MIDIEvent::EndOfTrack => 0,
        MIDIEvent::TuneRequest
        | MIDIEvent::MIDIClock
        | MIDIEvent::MIDIStart
        | MIDIEvent::MIDIContinue
        | MIDIEvent::MIDIStop
        | MIDIEvent::ActiveSense
        | MIDIEvent::Reset => 0,
        _ => 2,
    }
}

fn pv0() -> (r: Vec<u8>)
    ensures
        r@ == Seq::<u8>::empty(),
{
    let out: Vec<u8> = Vec::new();
    out
}

fn pv1(a: u8) -> (r: Vec<u8>)
    ensures
        r@ == seq![a],
{
    let mut out: Vec<u8> = Vec::new();
    out.push(a);
    proof {
        assert(out@ =~= seq![a]);
    }
    out
}

fn pv2(a: u8, b: u8) -> (r: Vec<u8>)
    ensures
        r@ == seq![a, b],
{
    let mut out: Vec<u8> = Vec::new();
    out.push(a);
    out.push(b);
    proof {
        assert(out@ =~= seq![a, b]);
    }
    out
}

fn pv3(a: u8, b: u8, c: u8) -> (r: Vec<u8>)
    ensures
        r@ == seq![a, b, c],
{
    let mut out: Vec<u8> = Vec::new();
    out.push(a);
    out.push(b);
    out.push(c);
    proof {
        assert(out@ =~= seq![a, b, c]);
    }
    out
}

/// The bytes of property `property_index` of `midievent`.
pub fn get_midi_property(midievent: &MIDIEvent, property_index: u8) -> (r: Vec<u8>)
    ensures
        r@ == midi_property(*midievent, property_index),
{
    match midievent {
        MIDIEvent::SequenceNumber(n) => pv2((*n / 0x100) as u8, (*n % 0x100) as u8),
        MIDIEvent::Text(s)
        | MIDIEvent::CopyRightNotice(s)
        | MIDIEvent::TrackName(s)
        | MIDIEvent::InstrumentName(s)
        | MIDIEvent::Lyric(s)
        | MIDIEvent::Marker(s)
        | MIDIEvent::CuePoint(s) => s.as_str().as_bytes_vec(),
        MIDIEvent::ChannelPrefix(c) => pv1(*c),
        MIDIEvent::SetTempo(t) => pv3(
            ((*t / 0x10000) % 0x100) as u8,
            ((*t / 0x100) % 0x100) as u8,
            (*t % 0x100) as u8,
        ),
        MIDIEvent::SMPTEOffset(h, m, s, ff, fr) => {
            match property_index {
                0 => pv1(*h),
                1 => pv1(*m),
                2 => pv1(*s),
                3 => pv1(*ff),
                4 => pv1(*fr),
                _ => pv1(0),
            }
        },
        MIDIEvent::TimeSignature(n, d, c, t) => {
            match property_index {
                0 => pv1(*n),
                1 => pv1(*d),
                2 => pv1(*c),
                3 => pv1(*t),
                _ => pv1(0),
            }
        },
        MIDIEvent::KeySignature(k) => {
            let msf = crate::keysig::get_mi_sf(k);
            match property_index {
                0 => pv1(msf.0),
                1 => pv1(msf.1),
                _ => pv0(),
            }
        },
        MIDIEvent::SequencerSpecific(d) | MIDIEvent::SystemExclusive(d) => {
            let out = crate::event::bytes_of_range(d, 0, d.len());
            proof {
                assert(d@.subrange(0, d@.len() as int) =~= d@);
            }
            out
        },
        MIDIEvent::NoteOn(c, n, v) | MIDIEvent::NoteOff(c, n, v) | MIDIEvent::AfterTouch(
            c,
            n,
            v,
        ) => {
            match property_index {
                0 => pv1(*c),
                1 => pv1(*n),
                2 => pv1(*v),
                _ => pv0(),
            }
        },
        MIDIEvent::ControlChange(c, n, v) => {
            match property_index {
                0 => pv1(*c),
                1 => pv1(*n),
                2 => pv1(*v),
                _ => pv0(),
            }
        },
        MIDIEvent::ProgramChange(c, p) => {
            match property_index {
                0 => pv1(*c),
                1 => pv1(*p),
                _ => pv0(),
            }
        },
        MIDIEvent::ChannelPressure(c, p) => {
            match property_index {
                0 => pv1(*c),
                1 => pv1(*p),
                _ => pv0(),
            }
        },
        MIDIEvent::PitchWheelChange(c, w) => {
            match property_index {
                0 => pv1(*c),
                1 => pv2((*w / 0x100) as u8, (*w % 0x100) as u8),
                _ => pv0(),
            }
        },
        MIDIEvent::MTCQuarterFrame(t, v) => {
            match property_index {
                0 => pv1(*t),
                1 => pv1(*v),
                _ => pv0(),
            }
        },
        MIDIEvent::SongPositionPointer(b) => pv2((*b / 0x100) as u8, (*b % 0x100) as u8),
        MIDIEvent::SongSelect(s) => pv1(*s & 0x7f),
        MIDIEvent::TimeCode(r, h, m, s, f) => {
            match property_index {
                0 => pv1(*r),
                1 => pv1(*h),
                2 => pv1(*m),
                3 => pv1(*s),
                4 => pv1(*f),
                _ => pv0(),
            }
        },
        MIDIEvent::DataIncrement(c)
        | MIDIEvent::DataDecrement(c)
        | MIDIEvent::AllControllersOff(c)
        | MIDIEvent::AllNotesOff(c)
        | MIDIEvent::AllSoundOff(c)
        | MIDIEvent::OmniOff(c)
        | MIDIEvent::OmniOn(c)
        | MIDIEvent::PolyphonicOperation(c) => pv1(*c),
        MIDIEvent::EndOfTrack => pv0(),
        MIDIEvent::TuneRequest
        | MIDIEvent::MIDIClock
        | MIDIEvent::MIDIStart
        | MIDIEvent::MIDIContinue
        | MIDIEvent::MIDIStop
        | MIDIEvent::ActiveSense
        | MIDIEvent::Reset => pv0(),
        MIDIEvent::BankSelect(c, v)
        | MIDIEvent::BankSelectLSB(c, v)
        | MIDIEvent::ModulationWheel(c, v)
        | MIDIEvent::ModulationWheelLSB(c, v)
        | MIDIEvent::BreathController(c, v)
        | MIDIEvent::BreathControllerLSB(c, v)
        | MIDIEvent::FootPedal(c, v)
        | MIDIEvent::FootPedalLSB(c, v)
        | MIDIEvent::PortamentoTime(c, v)
        | MIDIEvent::PortamentoTimeLSB(c, v)
        | MIDIEvent::DataEntry(c, v)
        | MIDIEvent::DataEntryLSB(c, v)
        | MIDIEvent::Volume(c, v)
        | MIDIEvent::VolumeLSB(c, v)
        | MIDIEvent::Balance(c, v)
        | MIDIEvent::BalanceLSB(c, v)
        | MIDIEvent::Pan(c, v)
        | MIDIEvent::PanLSB(c, v)
        | MIDIEvent::Expression(c, v)
        | MIDIEvent::ExpressionLSB(c, v)
        | MIDIEvent::EffectControl1(c, v)
        | MIDIEvent::EffectControl1LSB(c, v)
        | MIDIEvent::EffectControl2(c, v)
        | MIDIEvent::EffectControl2LSB(c, v)
        | MIDIEvent::HoldPedal(c, v)
        | MIDIEvent::Portamento(c, v)
        | MIDIEvent::Sustenuto(c, v)
        | MIDIEvent::SoftPedal(c, v)
        | MIDIEvent::Legato(c, v)
        | MIDIEvent::Hold2Pedal(c, v)
        | MIDIEvent::SoundVariation(c, v)
        | MIDIEvent::SoundTimbre(c, v)
        | MIDIEvent::SoundReleaseTime(c, v)
        | MIDIEvent::SoundAttack(c, v)
        | MIDIEvent::SoundBrightness(c, v)
        | MIDIEvent::SoundControl1(c, v)
        | MIDIEvent::SoundControl2(c, v)
        | MIDIEvent::SoundControl3(c, v)
        | MIDIEvent::SoundControl4(c, v)
        | MIDIEvent::SoundControl5(c, v)
        | MIDIEvent::GeneralPurpose1(c, v)
        | MIDIEvent::GeneralPurpose1LSB(c, v)
        | MIDIEvent::GeneralPurpose2(c, v)
        | MIDIEvent::GeneralPurpose2LSB(c, v)
        | MIDIEvent::GeneralPurpose3(c, v)
        | MIDIEvent::GeneralPurpose3LSB(c, v)
        | MIDIEvent::GeneralPurpose4(c, v)
        | MIDIEvent::GeneralPurpose4LSB(c, v)
        | MIDIEvent::GeneralPurpose5(c, v)
        | MIDIEvent::GeneralPurpose6(c, v)
        | MIDIEvent::GeneralPurpose7(c, v)
        | MIDIEvent::GeneralPurpose8(c, v)
        | MIDIEvent::EffectsLevel(c, v)
        | MIDIEvent::TremuloLevel(c, v)
        | MIDIEvent::ChorusLevel(c, v)
        | MIDIEvent::CelesteLevel(c, v)
        | MIDIEvent::PhaserLevel(c, v)
        | MIDIEvent::RegisteredParameterNumber(c, v)
        | MIDIEvent::RegisteredParameterNumberLSB(c, v)
        | MIDIEvent::NonRegisteredParameterNumber(c, v)
        | MIDIEvent::NonRegisteredParameterNumberLSB(c, v)
        | MIDIEvent::LocalControl(c, v)
        | MIDIEvent::MonophonicOperation(c, v) => {
            match property_index {
                0 => pv1(*c),
                1 => pv1(*v),
                _ => pv0(),
            }
        },
    }
}

} // verus!
