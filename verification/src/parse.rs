//! Deserialization of one event from a byte stream, with running-status
//! support: a lead byte with a clear high bit is not a status byte, and the
//! caller-supplied fallback status is used in its place.
//!
//! Structural problems (a bad status byte, a starved read) fail the parse;
//! a meta event with sound framing but an unknown sub-type or an unexpected
//! payload size, and a text meta event whose payload is not UTF-8, are
//! reported as skippable so that a track decode can continue past them.

use crate::error::ApresError;
use crate::event::MIDIEvent;
use crate::keysig::chord_name;
use crate::varlen::{be_value, varlen_span, varlen_value};
use vstd::prelude::*;
use vstd::utf8::{encode_utf8, valid_utf8};

verus! {

/// What parsing the head of a byte stream yields: a complete event spanning
/// `used` bytes; a well-framed but skippable meta event; a text meta event
/// with an illegible payload standing at `[pstart, pend)`; or a failure that
/// aborts the surrounding decode.
pub ghost enum ParseShape {
    Event { used: int },
    SkipMeta { used: int },
    SkipText { used: int, pstart: int, pend: int },
    Fail,
}

/// The status byte that governs the message at the head of `bytes`: the lead
/// byte itself, or the running-status fallback when the lead byte's high bit
/// is clear. Running status stands in only for channel messages.
pub open spec fn effective_status(bytes: Seq<u8>, fb: u8) -> u8 {
    if bytes[0] >= 0x80 {
        bytes[0]
    } else {
        fb
    }
}

/// Where the data bytes start: after the status byte, or at the lead byte
/// itself when the status was supplied by the running-status fallback.
pub open spec fn data_start(bytes: Seq<u8>) -> int {
    if bytes[0] >= 0x80 {
        1
    } else {
        0
    }
}

/// How many data bytes a channel message with this status carries.
pub open spec fn chan_data_count(status: u8) -> int {
    if 0xc0 <= status < 0xe0 {
        1
    } else {
        2
    }
}

/// The index of the 0xF7 byte that terminates a system-exclusive dump
/// starting at `from`, or -1 if none follows.
pub open spec fn sysex_end(bytes: Seq<u8>, from: int) -> int
    decreases bytes.len() - from,
{
    if from < 0 || from >= bytes.len() {
        -1
    } else if bytes[from] == 0xf7 {
        from
    } else {
        sysex_end(bytes, from + 1)
    }
}

/// True of the controller numbers that map to a named variant.
pub open spec fn is_named_controller(num: u8) -> bool {
    ||| (0x00 <= num <= 0x08 && num != 0x03)
    ||| (0x20 <= num <= 0x28 && num != 0x23)
    ||| (0x0a <= num <= 0x0d)
    ||| (0x2a <= num <= 0x2d)
    ||| (0x10 <= num <= 0x13)
    ||| (0x30 <= num <= 0x33)
    ||| (0x40 <= num <= 0x53)
    ||| (0x5b <= num <= 0x5f)
    ||| (0x60 <= num <= 0x65)
    ||| (0x78 <= num <= 0x7f)
}

/// The event a control-change message decodes to: one named variant per
/// recognized controller number, the generic variant for the rest.
pub open spec fn controller_event(ch: u8, num: u8, val: u8) -> MIDIEvent {
    if num == 0x00 {
        MIDIEvent::BankSelect(ch, val)
    } else if num == 0x20 {
        MIDIEvent::BankSelectLSB(ch, val)
    } else if num == 0x01 {
        MIDIEvent::ModulationWheel(ch, val)
    } else if num == 0x21 {
        MIDIEvent::ModulationWheelLSB(ch, val)
    } else if num == 0x02 {
        MIDIEvent::BreathController(ch, val)
    } else if num == 0x22 {
        MIDIEvent::BreathControllerLSB(ch, val)
    } else if num == 0x04 {
        MIDIEvent::FootPedal(ch, val)
    } else if num == 0x24 {
        MIDIEvent::FootPedalLSB(ch, val)
    } else if num == 0x05 {
        MIDIEvent::PortamentoTime(ch, val)
    } else if num == 0x25 {
        MIDIEvent::PortamentoTimeLSB(ch, val)
    } else if num == 0x06 {
        MIDIEvent::DataEntry(ch, val)
    } else if num == 0x26 {
        MIDIEvent::DataEntryLSB(ch, val)
    } else if num == 0x07 {
        MIDIEvent::Volume(ch, val)
    } else if num == 0x27 {
        MIDIEvent::VolumeLSB(ch, val)
    } else if num == 0x08 {
        MIDIEvent::Balance(ch, val)
    } else if num == 0x28 {
        MIDIEvent::BalanceLSB(ch, val)
    } else if num == 0x0a {
        MIDIEvent::Pan(ch, val)
    } else if num == 0x2a {
        MIDIEvent::PanLSB(ch, val)
    } else if num == 0x0b {
        MIDIEvent::Expression(ch, val)
    } else if num == 0x2b {
        MIDIEvent::ExpressionLSB(ch, val)
    } else if num == 0x0c {
        MIDIEvent::EffectControl1(ch, val)
    } else if num == 0x2c {
        MIDIEvent::EffectControl1LSB(ch, val)
    } else if num == 0x0d {
        MIDIEvent::EffectControl2(ch, val)
    } else if num == 0x2d {
        MIDIEvent::EffectControl2LSB(ch, val)
    } else if num == 0x10 {
        MIDIEvent::GeneralPurpose1(ch, val)
    } else if num == 0x30 {
        MIDIEvent::GeneralPurpose1LSB(ch, val)
    } else if num == 0x11 {
        MIDIEvent::GeneralPurpose2(ch, val)
    } else if num == 0x31 {
        MIDIEvent::GeneralPurpose2LSB(ch, val)
    } else if num == 0x12 {
        MIDIEvent::GeneralPurpose3(ch, val)
    } else if num == 0x32 {
        MIDIEvent::GeneralPurpose3LSB(ch, val)
    } else if num == 0x13 {
        MIDIEvent::GeneralPurpose4(ch, val)
    } else if num == 0x33 {
        MIDIEvent::GeneralPurpose4LSB(ch, val)
    } else if num == 0x40 {
        MIDIEvent::HoldPedal(ch, val)
    } else if num == 0x41 {
        MIDIEvent::Portamento(ch, val)
    } else if num == 0x42 {
        MIDIEvent::Sustenuto(ch, val)
    } else if num == 0x43 {
        MIDIEvent::SoftPedal(ch, val)
    } else if num == 0x44 {
        MIDIEvent::Legato(ch, val)
    } else if num == 0x45 {
        MIDIEvent::Hold2Pedal(ch, val)
    } else if num == 0x46 {
        MIDIEvent::SoundVariation(ch, val)
    } else if num == 0x47 {
        MIDIEvent::SoundTimbre(ch, val)
    } else if num == 0x48 {
        MIDIEvent::SoundReleaseTime(ch, val)
    } else if num == 0x49 {
        MIDIEvent::SoundAttack(ch, val)
    } else if num == 0x4a {
        MIDIEvent::SoundBrightness(ch, val)
    } else if num == 0x4b {
        MIDIEvent::SoundControl1(ch, val)
    } else if num == 0x4c {
        MIDIEvent::SoundControl2(ch, val)
    } else if num == 0x4d {
        MIDIEvent::SoundControl3(ch, val)
    } else if num == 0x4e {
        MIDIEvent::SoundControl4(ch, val)
    } else if num == 0x4f {
        MIDIEvent::SoundControl5(ch, val)
    } else if num == 0x50 {
        MIDIEvent::GeneralPurpose5(ch, val)
    } else if num == 0x51 {
        MIDIEvent::GeneralPurpose6(ch, val)
    } else if num == 0x52 {
        MIDIEvent::GeneralPurpose7(ch, val)
    } else if num == 0x53 {
        MIDIEvent::GeneralPurpose8(ch, val)
    } else if num == 0x5b {
        MIDIEvent::EffectsLevel(ch, val)
    } else if num == 0x5c {
        MIDIEvent::TremuloLevel(ch, val)
    } else if num == 0x5d {
        MIDIEvent::ChorusLevel(ch, val)
    } else if num == 0x5e {
        MIDIEvent::CelesteLevel(ch, val)
    } else if num == 0x5f {
        MIDIEvent::PhaserLevel(ch, val)
    } else if num == 0x60 {
        MIDIEvent::DataIncrement(ch)
    } else if num == 0x61 {
        MIDIEvent::DataDecrement(ch)
    } else if num == 0x62 {
        MIDIEvent::NonRegisteredParameterNumberLSB(ch, val)
    } else if num == 0x63 {
        MIDIEvent::NonRegisteredParameterNumber(ch, val)
    } else if num == 0x64 {
        MIDIEvent::RegisteredParameterNumberLSB(ch, val)
    } else if num == 0x65 {
        MIDIEvent::RegisteredParameterNumber(ch, val)
    } else if num == 0x78 {
        MIDIEvent::AllSoundOff(ch)
    } else if num == 0x79 {
        MIDIEvent::AllControllersOff(ch)
    } else if num == 0x7a {
        MIDIEvent::LocalControl(ch, val)
    } else if num == 0x7b {
        MIDIEvent::AllNotesOff(ch)
    } else if num == 0x7c {
        MIDIEvent::OmniOff(ch)
    } else if num == 0x7d {
        MIDIEvent::OmniOn(ch)
    } else if num == 0x7e {
        MIDIEvent::MonophonicOperation(ch, val)
    } else if num == 0x7f {
        MIDIEvent::PolyphonicOperation(ch)
    } else {
        MIDIEvent::ControlChange(ch, num, val)
    }
}

/// The event a channel message decodes to. A note-on with velocity zero
/// canonicalizes to a note-off.
pub open spec fn chan_event(status: u8, d1: u8, d2: u8) -> MIDIEvent {
    let ch = status & 0x0f;
    if status < 0x90 {
        MIDIEvent::NoteOff(ch, d1 & 0x7f, d2 & 0x7f)
    } else if status < 0xa0 {
        if d2 & 0x7f == 0 {
            MIDIEvent::NoteOff(ch, d1 & 0x7f, 0)
        } else {
            MIDIEvent::NoteOn(ch, d1 & 0x7f, d2 & 0x7f)
        }
    } else if status < 0xb0 {
        MIDIEvent::AfterTouch(ch, d1 & 0x7f, d2 & 0x7f)
    } else if status < 0xc0 {
        controller_event(ch, d1 & 0x7f, d2 & 0x7f)
    } else if status < 0xd0 {
        MIDIEvent::ProgramChange(ch, d1 & 0x7f)
    } else if status < 0xe0 {
        MIDIEvent::ChannelPressure(ch, d1 & 0x7f)
    } else {
        MIDIEvent::PitchWheelChange(
            ch,
            (((d2 & 0x7f) as u16) * 0x80 + ((d1 & 0x7f) as u16)) as u16,
        )
    }
}

/// The meta-event sub-types with a fixed payload size, and those sizes.
pub open spec fn meta_fixed_len(sub: u8) -> Option<int> {
    if sub == 0x00 {
        Some(2)
    } else if sub == 0x20 {
        Some(1)
    } else if sub == 0x2f {
        Some(0)
    } else if sub == 0x51 {
        Some(3)
    } else if sub == 0x54 {
        Some(5)
    } else if sub == 0x58 {
        Some(4)
    } else if sub == 0x59 {
        Some(2)
    } else {
        None
    }
}

/// The outcome of parsing a meta event whose sub-type stands at `ds`, given
/// that the framing (length and payload) is fully present.
pub open spec fn meta_shape(bytes: Seq<u8>, ds: int, pstart: int, plen: int) -> ParseShape {
    let sub = bytes[ds];
    let used = pstart + plen;
    if 0x01 <= sub <= 0x07 {
        if valid_utf8(bytes.subrange(pstart, pstart + plen)) {
            ParseShape::Event { used }
        } else {
            ParseShape::SkipText { used, pstart, pend: pstart + plen }
        }
    } else if sub == 0x7f {
        ParseShape::Event { used }
    } else {
        match meta_fixed_len(sub) {
            Some(l) => if plen == l {
                ParseShape::Event { used }
            } else {
                ParseShape::SkipMeta { used }
            },
            None => ParseShape::SkipMeta { used },
        }
    }
}

/// What parsing the head of `bytes` with running-status fallback `fb` does:
/// which outcome, and how many bytes it spans.
pub open spec fn parse_shape(bytes: Seq<u8>, fb: u8) -> ParseShape {
    if bytes.len() == 0 {
        ParseShape::Fail
    } else if bytes[0] < 0x80 && !(0x80 <= fb < 0xf0) {
        ParseShape::Fail
    } else {
        let st = effective_status(bytes, fb);
        let ds = data_start(bytes);
        if 0x80 <= st < 0xf0 {
            if ds + chan_data_count(st) <= bytes.len() {
                ParseShape::Event { used: ds + chan_data_count(st) }
            } else {
                ParseShape::Fail
            }
        } else if st == 0xf0 {
            if sysex_end(bytes, ds) >= 0 {
                ParseShape::Event { used: sysex_end(bytes, ds) + 1 }
            } else {
                ParseShape::Fail
            }
        } else if st == 0xf1 || st == 0xf3 {
            if ds + 1 <= bytes.len() {
                ParseShape::Event { used: ds + 1 }
            } else {
                ParseShape::Fail
            }
        } else if st == 0xf2 {
            if ds + 2 <= bytes.len() {
                ParseShape::Event { used: ds + 2 }
            } else {
                ParseShape::Fail
            }
        } else if st == 0xf6 || st == 0xf8 || st == 0xfa || st == 0xfb || st == 0xfc || st
            == 0xfe {
            ParseShape::Event { used: ds }
        } else if st == 0xff {
            if ds + 1 >= bytes.len() {
                ParseShape::Fail
            } else {
                let k = varlen_span(bytes.skip(ds + 1));
                if k < 0 {
                    ParseShape::Fail
                } else {
                    let plen = (varlen_value(bytes.skip(ds + 1).take(k))
                        % 0x10000000000000000) as int;
                    let pstart = ds + 1 + k;
                    if pstart + plen > bytes.len() {
                        ParseShape::Fail
                    } else {
                        meta_shape(bytes, ds, pstart, plen)
                    }
                }
            }
        } else {
            ParseShape::Fail
        }
    }
}

/// Relates a successfully parsed event to the bytes it came from. Holds
/// exactly of the event that `parse_shape`'s `Event` outcome denotes.
pub open spec fn event_parses_from(bytes: Seq<u8>, fb: u8, e: MIDIEvent) -> bool {
    let st = effective_status(bytes, fb);
    let ds = data_start(bytes);
    if 0x80 <= st < 0xf0 {
        e == chan_event(
            st,
            bytes[ds],
            if chan_data_count(st) == 2 {
                bytes[ds + 1]
            } else {
                0
            },
        )
    } else if st == 0xf0 {
        &&& e matches MIDIEvent::SystemExclusive(d)
        &&& d@ == bytes.subrange(ds, sysex_end(bytes, ds))
    } else if st == 0xf1 {
        e == MIDIEvent::MTCQuarterFrame(((bytes[ds] & 0x70) / 0x10) as u8, bytes[ds] & 0x0f)
    } else if st == 0xf2 {
        e == MIDIEvent::SongPositionPointer(
            (((bytes[ds + 1] & 0x7f) as u16) * 0x80 + ((bytes[ds] & 0x7f) as u16)) as u16,
        )
    } else if st == 0xf3 {
        e == MIDIEvent::SongSelect(bytes[ds] & 0x7f)
    } else if st == 0xf6 {
        e == MIDIEvent::TuneRequest
    } else if st == 0xf8 {
        e == MIDIEvent::MIDIClock
    } else if st == 0xfa {
        e == MIDIEvent::MIDIStart
    } else if st == 0xfb {
        e == MIDIEvent::MIDIContinue
    } else if st == 0xfc {
        e == MIDIEvent::MIDIStop
    } else if st == 0xfe {
        e == MIDIEvent::ActiveSense
    } else if st == 0xff {
        meta_event_parses(bytes, ds, e)
    } else {
        false
    }
}

/// Relates a parsed meta event to its sub-type and payload.
pub open spec fn meta_event_parses(bytes: Seq<u8>, ds: int, e: MIDIEvent) -> bool {
    let sub = bytes[ds];
    let k = varlen_span(bytes.skip(ds + 1));
    let plen = (varlen_value(bytes.skip(ds + 1).take(k)) % 0x10000000000000000) as int;
    let pstart = ds + 1 + k;
    let payload = bytes.subrange(pstart, pstart + plen);
    if sub == 0x00 {
        e == MIDIEvent::SequenceNumber(((be_value(payload) % 0x10000) as u16))
    } else if sub == 0x01 {
        &&& e matches MIDIEvent::Text(s)
        &&& encode_utf8(s@) == payload
    } else if sub == 0x02 {
        &&& e matches MIDIEvent::CopyRightNotice(s)
        &&& encode_utf8(s@) == payload
    } else if sub == 0x03 {
        &&& e matches MIDIEvent::TrackName(s)
        &&& encode_utf8(s@) == payload
    } else if sub == 0x04 {
        &&& e matches MIDIEvent::InstrumentName(s)
        &&& encode_utf8(s@) == payload
    } else if sub == 0x05 {
        &&& e matches MIDIEvent::Lyric(s)
        &&& encode_utf8(s@) == payload
    } else if sub == 0x06 {
        &&& e matches MIDIEvent::Marker(s)
        &&& encode_utf8(s@) == payload
    } else if sub == 0x07 {
        &&& e matches MIDIEvent::CuePoint(s)
        &&& encode_utf8(s@) == payload
    } else if sub == 0x20 {
        e == MIDIEvent::ChannelPrefix(payload[0])
    } else if sub == 0x2f {
        e == MIDIEvent::EndOfTrack
    } else if sub == 0x51 {
        e == MIDIEvent::SetTempo(((be_value(payload) % 0x100000000) as u32))
    } else if sub == 0x54 {
        e == MIDIEvent::SMPTEOffset(payload[0], payload[1], payload[2], payload[3], payload[4])
    } else if sub == 0x58 {
        e == MIDIEvent::TimeSignature(payload[0], payload[1], payload[2], payload[3])
    } else if sub == 0x59 {
        &&& e matches MIDIEvent::KeySignature(s)
        &&& s@ == chord_name(payload[1], payload[0])
    } else if sub == 0x7f {
        &&& e matches MIDIEvent::SequencerSpecific(d)
        &&& d@ == payload
    } else {
        false
    }
}

pub(crate) proof fn lemma_sysex_end_at(bytes: Seq<u8>, from: int, i: int)
    requires
        0 <= from <= i < bytes.len(),
        forall|j: int| from <= j < i ==> #[trigger] bytes[j] != 0xf7,
        bytes[i] == 0xf7,
    ensures
        sysex_end(bytes, from) == i,
    decreases i - from,
{
    if from < i {
        lemma_sysex_end_at(bytes, from + 1, i);
    }
}

pub(crate) proof fn lemma_sysex_end_none(bytes: Seq<u8>, from: int)
    requires
        0 <= from,
        forall|j: int| from <= j < bytes.len() ==> #[trigger] bytes[j] != 0xf7,
    ensures
        sysex_end(bytes, from) < 0,
    decreases bytes.len() - from,
{
    if from < bytes.len() {
        lemma_sysex_end_none(bytes, from + 1);
    }
}

/// Relies on String::from_utf8: it succeeds exactly when the bytes are valid
/// UTF-8 and the string then holds exactly those bytes; on failure the bytes
/// come back unchanged.
#[verifier::external_body]
fn string_from_utf8(v: Vec<u8>) -> (r: Result<String, Vec<u8>>)
    ensures
        r matches Ok(s) ==> valid_utf8(v@) && encode_utf8(s@) == v@,
        r matches Err(w) ==> !valid_utf8(v@) && w@ == v@,
{
    match String::from_utf8(v) {
        Ok(s) => Ok(s),
        Err(e) => Err(e.into_bytes()),
    }
}

fn controller_event_from(ch: u8, num: u8, val: u8) -> (e: MIDIEvent)
    ensures
        e == controller_event(ch, num, val),
{
    match num {
        0x00 => MIDIEvent::BankSelect(ch, val),
        0x20 => MIDIEvent::BankSelectLSB(ch, val),
        0x01 => MIDIEvent::ModulationWheel(ch, val),
        0x21 => MIDIEvent::ModulationWheelLSB(ch, val),
        0x02 => MIDIEvent::BreathController(ch, val),
        0x22 => MIDIEvent::BreathControllerLSB(ch, val),
        0x04 => MIDIEvent::FootPedal(ch, val),
        0x24 => MIDIEvent::FootPedalLSB(ch, val),
        0x05 => MIDIEvent::PortamentoTime(ch, val),
        0x25 => MIDIEvent::PortamentoTimeLSB(ch, val),
        0x06 => MIDIEvent::DataEntry(ch, val),
        0x26 => MIDIEvent::DataEntryLSB(ch, val),
        0x07 => MIDIEvent::Volume(ch, val),
        0x27 => MIDIEvent::VolumeLSB(ch, val),
        0x08 => MIDIEvent::Balance(ch, val),
        0x28 => MIDIEvent::BalanceLSB(ch, val),
        0x0a => MIDIEvent::Pan(ch, val),
        0x2a => MIDIEvent::PanLSB(ch, val),
        0x0b => MIDIEvent::Expression(ch, val),
        0x2b => MIDIEvent::ExpressionLSB(ch, val),
        0x0c => MIDIEvent::EffectControl1(ch, val),
        0x2c => MIDIEvent::EffectControl1LSB(ch, val),
        0x0d => MIDIEvent::EffectControl2(ch, val),
        0x2d => MIDIEvent::EffectControl2LSB(ch, val),
        0x10 => MIDIEvent::GeneralPurpose1(ch, val),
        0x30 => MIDIEvent::GeneralPurpose1LSB(ch, val),
        0x11 => MIDIEvent::GeneralPurpose2(ch, val),
        0x31 => MIDIEvent::GeneralPurpose2LSB(ch, val),
        0x12 => MIDIEvent::GeneralPurpose3(ch, val),
        0x32 => MIDIEvent::GeneralPurpose3LSB(ch, val),
        0x13 => MIDIEvent::GeneralPurpose4(ch, val),
        0x33 => MIDIEvent::GeneralPurpose4LSB(ch, val),
        0x40 => MIDIEvent::HoldPedal(ch, val),
        0x41 => MIDIEvent::Portamento(ch, val),
        0x42 => MIDIEvent::Sustenuto(ch, val),
        0x43 => MIDIEvent::SoftPedal(ch, val),
        0x44 => MIDIEvent::Legato(ch, val),
        0x45 => MIDIEvent::Hold2Pedal(ch, val),
        0x46 => MIDIEvent::SoundVariation(ch, val),
        0x47 => MIDIEvent::SoundTimbre(ch, val),
        0x48 => MIDIEvent::SoundReleaseTime(ch, val),
        0x49 => MIDIEvent::SoundAttack(ch, val),
        0x4a => MIDIEvent::SoundBrightness(ch, val),
        0x4b => MIDIEvent::SoundControl1(ch, val),
        0x4c => MIDIEvent::SoundControl2(ch, val),
        0x4d => MIDIEvent::SoundControl3(ch, val),
        0x4e => MIDIEvent::SoundControl4(ch, val),
        0x4f => MIDIEvent::SoundControl5(ch, val),
        0x50 => MIDIEvent::GeneralPurpose5(ch, val),
        0x51 => MIDIEvent::GeneralPurpose6(ch, val),
        0x52 => MIDIEvent::GeneralPurpose7(ch, val),
        0x53 => MIDIEvent::GeneralPurpose8(ch, val),
        0x5b => MIDIEvent::EffectsLevel(ch, val),
        0x5c => MIDIEvent::TremuloLevel(ch, val),
        0x5d => MIDIEvent::ChorusLevel(ch, val),
        0x5e => MIDIEvent::CelesteLevel(ch, val),
        0x5f => MIDIEvent::PhaserLevel(ch, val),
        0x60 => MIDIEvent::DataIncrement(ch),
        0x61 => MIDIEvent::DataDecrement(ch),
        0x62 => MIDIEvent::NonRegisteredParameterNumberLSB(ch, val),
        0x63 => MIDIEvent::NonRegisteredParameterNumber(ch, val),
        0x64 => MIDIEvent::RegisteredParameterNumberLSB(ch, val),
        0x65 => MIDIEvent::RegisteredParameterNumber(ch, val),
        0x78 => MIDIEvent::AllSoundOff(ch),
        0x79 => MIDIEvent::AllControllersOff(ch),
        0x7a => MIDIEvent::LocalControl(ch, val),
        0x7b => MIDIEvent::AllNotesOff(ch),
        0x7c => MIDIEvent::OmniOff(ch),
        0x7d => MIDIEvent::OmniOn(ch),
        0x7e => MIDIEvent::MonophonicOperation(ch, val),
        0x7f => MIDIEvent::PolyphonicOperation(ch),
        _ => MIDIEvent::ControlChange(ch, num, val),
    }
}

pub(crate) fn chan_event_from(status: u8, d1: u8, d2: u8) -> (e: MIDIEvent)
    requires
        0x80 <= status < 0xf0,
    ensures
        e == chan_event(status, d1, d2),
{
    proof {
        crate::event::lemma_byte_masks(d1);
        crate::event::lemma_byte_masks(d2);
    }
    let ch = status & 0x0f;
    if status < 0x90 {
        MIDIEvent::NoteOff(ch, d1 & 0x7f, d2 & 0x7f)
    } else if status < 0xa0 {
        if d2 & 0x7f == 0 {
            MIDIEvent::NoteOff(ch, d1 & 0x7f, 0)
        } else {
            MIDIEvent::NoteOn(ch, d1 & 0x7f, d2 & 0x7f)
        }
    } else if status < 0xb0 {
        MIDIEvent::AfterTouch(ch, d1 & 0x7f, d2 & 0x7f)
    } else if status < 0xc0 {
        controller_event_from(ch, d1 & 0x7f, d2 & 0x7f)
    } else if status < 0xd0 {
        MIDIEvent::ProgramChange(ch, d1 & 0x7f)
    } else if status < 0xe0 {
        MIDIEvent::ChannelPressure(ch, d1 & 0x7f)
    } else {
        MIDIEvent::PitchWheelChange(
            ch,
            ((d2 & 0x7f) as u16) * 0x80 + ((d1 & 0x7f) as u16),
        )
    }
}

/// How a parse result and its consumed-byte count relate to the stream: the
/// complete contract of one deserialization step.
pub open spec fn parse_step_post(
    tail: Seq<u8>,
    fb: u8,
    res: Result<MIDIEvent, ApresError>,
    used: int,
) -> bool {
    match parse_shape(tail, fb) {
        ParseShape::Event { used: u } => {
            &&& res matches Ok(e) && event_parses_from(tail, fb, e)
            &&& used == u
        },
        ParseShape::SkipMeta { used: u } => {
            &&& res matches Err(er) && er matches ApresError::UnknownMetaEvent(b) && b@
                == tail.take(u)
            &&& used == u
        },
        ParseShape::SkipText { used: u, pstart, pend } => {
            &&& res matches Err(er) && er matches ApresError::IllegibleString(b) && b@
                == tail.subrange(pstart, pend)
            &&& used == u
        },
        ParseShape::Fail => {
            &&& res matches Err(er) && er matches ApresError::InvalidBytes(b) && b@ == tail.take(
                if tail.len() > 0 {
                    1int
                } else {
                    0int
                },
            )
            &&& used == 0
        },
    }
}

/// Parse one event from `bytes` at `start` with running-status fallback
/// `fb`, returning the outcome and the number of bytes it spans.
pub(crate) fn parse_event_at(bytes: &Vec<u8>, start: usize, fb: u8) -> (r: (
    Result<MIDIEvent, ApresError>,
    usize,
))
    requires
        start <= bytes@.len(),
    ensures
        parse_step_post(bytes@.skip(start as int), fb, r.0, r.1 as int),
        r.1 <= bytes@.len() - start,
{
    let ghost tail = bytes@.skip(start as int);
    let n = bytes.len();
    if start >= n {
        proof {
            assert(tail.len() == 0);
            assert(Seq::<u8>::empty() =~= tail.take(0));
        }
        return (Err(ApresError::InvalidBytes(Vec::new())), 0);
    }
    let lead = bytes[start];
    proof {
        assert(tail[0] == bytes@[start as int]);
    }
    if lead < 0x80 && !(fb >= 0x80 && fb < 0xf0) {
        let mut b: Vec<u8> = Vec::new();
        b.push(lead);
        proof {
            assert(b@ =~= tail.take(1));
        }
        return (Err(ApresError::InvalidBytes(b)), 0);
    }
    let st: u8 = if lead >= 0x80 {
        lead
    } else {
        fb
    };
    let ds: usize = if lead >= 0x80 {
        1
    } else {
        0
    };
    proof {
        assert(st == effective_status(tail, fb));
        assert(ds as int == data_start(tail));
    }
    if st < 0xf0 {
        let cnt: usize = if st >= 0xc0 && st < 0xe0 {
            1
        } else {
            2
        };
        proof {
            assert(cnt as int == chan_data_count(st));
        }
        if n - start < ds + cnt {
            let mut b: Vec<u8> = Vec::new();
            b.push(lead);
            proof {
                assert(b@ =~= tail.take(1));
            }
            return (Err(ApresError::InvalidBytes(b)), 0);
        }
        let d1 = bytes[start + ds];
        let d2 = if cnt == 2 {
            bytes[start + ds + 1]
        } else {
            0
        };
        proof {
            assert(tail[ds as int] == bytes@[start + ds]);
            if cnt == 2 {
                assert(tail[ds + 1] == bytes@[start + ds + 1]);
            }
        }
        let e = chan_event_from(st, d1, d2);
        return (Ok(e), ds + cnt);
    }
    // Everything from here on has an explicit status byte: the running-status
    // fallback is limited to channel messages.
    proof {
        assert(ds == 1);
    }
    if st == 0xf0 {
        let mut i = start + 1;
        while i < n
            invariant
                start + 1 <= i <= n,
                n == bytes@.len(),
                start < n,
                tail == bytes@.skip(start as int),
                tail[0] == 0xf0,
                forall|j: int| start + 1 <= j < i ==> #[trigger] bytes@[j] != 0xf7,
            decreases n - i,
        {
            if bytes[i] == 0xf7 {
                proof {
                    assert forall|j: int| 1 <= j < i - start implies #[trigger] tail[j] != 0xf7 by {
                        assert(tail[j] == bytes@[start + j]);
                    }
                    assert(tail[i - start] == bytes@[i as int]);
                    lemma_sysex_end_at(tail, 1, i - start);
                }
                let payload = crate::event::bytes_of_range(bytes, start + 1, i);
                proof {
                    assert(payload@ =~= tail.subrange(1, i - start));
                }
                return (Ok(MIDIEvent::SystemExclusive(payload)), i - start + 1);
            }
            i = i + 1;
        }
        proof {
            assert forall|j: int| 1 <= j < tail.len() implies #[trigger] tail[j] != 0xf7 by {
                assert(tail[j] == bytes@[start + j]);
            }
            lemma_sysex_end_none(tail, 1);
        }
        let mut b: Vec<u8> = Vec::new();
        b.push(lead);
        proof {
            assert(b@ =~= tail.take(1));
        }
        return (Err(ApresError::InvalidBytes(b)), 0);
    }
    if st == 0xf1 || st == 0xf3 {
        if n - start < 2 {
            let mut b: Vec<u8> = Vec::new();
            b.push(lead);
            proof {
                assert(b@ =~= tail.take(1));
            }
            return (Err(ApresError::InvalidBytes(b)), 0);
        }
        let d = bytes[start + 1];
        proof {
            assert(tail[1] == bytes@[start + 1]);
        }
        if st == 0xf1 {
            proof {
                assert((d & 0x70) / 0x10 < 0x10) by (bit_vector);
            }
            return (Ok(MIDIEvent::MTCQuarterFrame((d & 0x70) / 0x10, d & 0x0f)), 2);
        } else {
            return (Ok(MIDIEvent::SongSelect(d & 0x7f)), 2);
        }
    }
    if st == 0xf2 {
        if n - start < 3 {
            let mut b: Vec<u8> = Vec::new();
            b.push(lead);
            proof {
                assert(b@ =~= tail.take(1));
            }
            return (Err(ApresError::InvalidBytes(b)), 0);
        }
        let d1 = bytes[start + 1];
        let d2 = bytes[start + 2];
        proof {
            assert(tail[1] == bytes@[start + 1]);
            assert(tail[2] == bytes@[start + 2]);
            crate::event::lemma_byte_masks(d1);
            crate::event::lemma_byte_masks(d2);
        }
        let beat: u16 = ((d2 & 0x7f) as u16) * 0x80 + ((d1 & 0x7f) as u16);
        return (Ok(MIDIEvent::SongPositionPointer(beat)), 3);
    }
    if st == 0xf6 {
        return (Ok(MIDIEvent::TuneRequest), 1);
    }
    if st == 0xf8 {
        return (Ok(MIDIEvent::MIDIClock), 1);
    }
    if st == 0xfa {
        return (Ok(MIDIEvent::MIDIStart), 1);
    }
    if st == 0xfb {
        return (Ok(MIDIEvent::MIDIContinue), 1);
    }
    if st == 0xfc {
        return (Ok(MIDIEvent::MIDIStop), 1);
    }
    if st == 0xfe {
        return (Ok(MIDIEvent::ActiveSense), 1);
    }
    if st == 0xff {
        return parse_meta_at(bytes, start, fb);
    }
    // 0xF4, 0xF5, 0xF7, 0xF9, 0xFD: undefined in this context.
    let mut b: Vec<u8> = Vec::new();
    b.push(lead);
    proof {
        assert(b@ =~= tail.take(1));
    }
    (Err(ApresError::InvalidBytes(b)), 0)
}

fn parse_meta_at(bytes: &Vec<u8>, start: usize, fb: u8) -> (r: (
    Result<MIDIEvent, ApresError>,
    usize,
))
    requires
        start < bytes@.len(),
        bytes@[start as int] == 0xff,
    ensures
        parse_step_post(bytes@.skip(start as int), fb, r.0, r.1 as int),
        r.1 <= bytes@.len() - start,
{
    let ghost tail = bytes@.skip(start as int);
    proof {
        assert(tail[0] == bytes@[start as int]);
    }
    let n = bytes.len();
    if n - start < 2 {
        let mut b: Vec<u8> = Vec::new();
        b.push(0xff);
        proof {
            assert(b@ =~= tail.take(1));
        }
        return (Err(ApresError::InvalidBytes(b)), 0);
    }
    let sub = bytes[start + 1];
    proof {
        assert(tail[1] == bytes@[start + 1]);
        assert(tail.skip(2) =~= bytes@.skip(start + 2));
    }
    let lenr = crate::varlen::read_varlen_at(bytes, start + 2);
    match lenr {
        None => {
            let mut b: Vec<u8> = Vec::new();
            b.push(0xff);
            proof {
                assert(b@ =~= tail.take(1));
            }
            (Err(ApresError::InvalidBytes(b)), 0)
        },
        Some((plen64, k)) => {
            proof {
                assert(tail.skip(2).take(k as int) =~= bytes@.skip(start + 2).take(k as int));
            }
            let avail = n - (start + 2 + k);
            if plen64 > avail as u64 {
                let mut b: Vec<u8> = Vec::new();
                b.push(0xff);
                proof {
                    assert(b@ =~= tail.take(1));
                }
                return (Err(ApresError::InvalidBytes(b)), 0);
            }
            let plen = plen64 as usize;
            let pstart = start + 2 + k;
            let used = 2 + k + plen;
            let ghost sp = (2 + k + plen64 as nat) as int;
            let ghost prange = tail.subrange(2 + k, sp);
            proof {
                assert(prange =~= bytes@.subrange(pstart as int, pstart + plen));
            }
            if sub == 0x00 && plen == 2 {
                let v = crate::varlen::read_fixed_width(bytes, pstart, 2);
                return (Ok(MIDIEvent::SequenceNumber((v % 0x10000) as u16)), used);
            }
            if sub >= 0x01 && sub <= 0x07 {
                let payload = crate::event::bytes_of_range(bytes, pstart, pstart + plen);
                match string_from_utf8(payload) {
                    Ok(s) => {
                        let e = match sub {
                            0x01 => MIDIEvent::Text(s),
                            0x02 => MIDIEvent::CopyRightNotice(s),
                            0x03 => MIDIEvent::TrackName(s),
                            0x04 => MIDIEvent::InstrumentName(s),
                            0x05 => MIDIEvent::Lyric(s),
                            0x06 => MIDIEvent::Marker(s),
                            _ => MIDIEvent::CuePoint(s),
                        };
                        return (Ok(e), used);
                    },
                    Err(w) => {
                        return (Err(ApresError::IllegibleString(w)), used);
                    },
                }
            }
            if sub == 0x20 && plen == 1 {
                return (Ok(MIDIEvent::ChannelPrefix(bytes[pstart])), used);
            }
            if sub == 0x2f && plen == 0 {
                return (Ok(MIDIEvent::EndOfTrack), used);
            }
            if sub == 0x51 && plen == 3 {
                let v = crate::varlen::read_fixed_width(bytes, pstart, 3);
                return (Ok(MIDIEvent::SetTempo((v % 0x100000000) as u32)), used);
            }
            if sub == 0x54 && plen == 5 {
                return (
                    Ok(
                        MIDIEvent::SMPTEOffset(
                            bytes[pstart],
                            bytes[pstart + 1],
                            bytes[pstart + 2],
                            bytes[pstart + 3],
                            bytes[pstart + 4],
                        ),
                    ),
                    used,
                );
            }
            if sub == 0x58 && plen == 4 {
                return (
                    Ok(
                        MIDIEvent::TimeSignature(
                            bytes[pstart],
                            bytes[pstart + 1],
                            bytes[pstart + 2],
                            bytes[pstart + 3],
                        ),
                    ),
                    used,
                );
            }
            if sub == 0x59 && plen == 2 {
                let name = crate::keysig::get_chord_name_from_mi_sf(
                    bytes[pstart + 1],
                    bytes[pstart],
                );
                return (Ok(MIDIEvent::KeySignature(name)), used);
            }
            if sub == 0x7f {
                let payload = crate::event::bytes_of_range(bytes, pstart, pstart + plen);
                return (Ok(MIDIEvent::SequencerSpecific(payload)), used);
            }
            let whole = crate::event::bytes_of_range(bytes, start, pstart + plen);
            proof {
                assert(whole@ =~= tail.take(2 + k + plen64 as int));
            }
            (Err(ApresError::UnknownMetaEvent(whole)), used)
        },
    }
}

impl MIDIEvent {
    /// Deserialize one event from the front of `bytes`, consuming the bytes
    /// it spans. A lead byte below 0x80 is read under the running-status
    /// fallback `default_byte`. Skippable outcomes (an unknown meta
    /// sub-type, an illegible text payload) consume the event they skip.
    pub fn from_bytes(bytes: &mut Vec<u8>, default_byte: u8) -> (r: Result<MIDIEvent, ApresError>)
        ensures
            ({
                let shape = parse_shape(old(bytes)@, default_byte);
                match shape {
                    ParseShape::Event { used } => {
                        &&& parse_step_post(old(bytes)@, default_byte, r, used)
                        &&& final(bytes)@ == old(bytes)@.skip(used)
                    },
                    ParseShape::SkipMeta { used } => {
                        &&& parse_step_post(old(bytes)@, default_byte, r, used)
                        &&& final(bytes)@ == old(bytes)@.skip(used)
                    },
                    ParseShape::SkipText { used, pstart, pend } => {
                        &&& parse_step_post(old(bytes)@, default_byte, r, used)
                        &&& final(bytes)@ == old(bytes)@.skip(used)
                    },
                    ParseShape::Fail => {
                        &&& parse_step_post(old(bytes)@, default_byte, r, 0)
                        &&& final(bytes)@ == old(bytes)@
                    },
                }
            }),
    {
        proof {
            assert(bytes@.skip(0) =~= bytes@);
        }
        let (res, used) = parse_event_at(bytes, 0, default_byte);
        let rest = bytes.split_off(used);
        *bytes = rest;
        proof {
            assert(bytes@ =~= old(bytes)@.skip(used as int));
        }
        res
    }
}

/// Law: a string is determined by its UTF-8 image, so the text relations
/// above pin a parsed string's characters, not just its bytes.
pub proof fn lemma_utf8_injective(a: Seq<char>, b: Seq<char>)
    requires
        encode_utf8(a) == encode_utf8(b),
    ensures
        a == b,
{
    vstd::utf8::encode_utf8_decode_utf8(a);
    vstd::utf8::encode_utf8_decode_utf8(b);
}

/// The event's fields are inside their wire ranges and its serialization is
/// a complete file-context message: channels four bits wide, data values
/// seven, payload sizes matching their frames, system-exclusive data free of
/// the terminator byte. `Reset` and `TimeCode` carry live-context encodings
/// and are excluded.
pub open spec fn wf_file_event(e: MIDIEvent) -> bool {
    match e {
        MIDIEvent::SequenceNumber(_) => true,
        MIDIEvent::Text(s)
        | MIDIEvent::CopyRightNotice(s)
        | MIDIEvent::TrackName(s)
        | MIDIEvent::InstrumentName(s)
        | MIDIEvent::Lyric(s)
        | MIDIEvent::Marker(s)
        | MIDIEvent::CuePoint(s) => encode_utf8(s@).len() < 0x10000000000000000,
        MIDIEvent::EndOfTrack => true,
        MIDIEvent::ChannelPrefix(_) => true,
        MIDIEvent::SetTempo(t) => t <= 0xffffff,
        MIDIEvent::SMPTEOffset(_, _, _, _, _) => true,
        MIDIEvent::TimeSignature(_, _, _, _) => true,
        MIDIEvent::KeySignature(k) => crate::keysig::is_key_name(k@),
        MIDIEvent::SequencerSpecific(d) => d@.len() < 0x10000000000000000,
        MIDIEvent::NoteOn(c, n, v) => c < 0x10 && n < 0x80 && v < 0x80,
        MIDIEvent::NoteOff(c, n, v) => c < 0x10 && n < 0x80 && v < 0x80,
        MIDIEvent::AfterTouch(c, n, v) => c < 0x10 && n < 0x80 && v < 0x80,
        MIDIEvent::ControlChange(c, n, v) => c < 0x10 && n < 0x80 && v < 0x80
            && !is_named_controller(n),
        MIDIEvent::ProgramChange(c, p) => c < 0x10 && p < 0x80,
        MIDIEvent::ChannelPressure(c, p) => c < 0x10 && p < 0x80,
        MIDIEvent::PitchWheelChange(c, w) => c < 0x10 && w <= 0x3fff,
        MIDIEvent::SystemExclusive(d) => d@.len() < 0x10000000000000000 && (forall|i: int|
            0 <= i < d@.len() ==> #[trigger] d@[i] != 0xf7),
        MIDIEvent::MTCQuarterFrame(t, v) => t < 0x08 && v < 0x10,
        MIDIEvent::SongPositionPointer(b) => b <= 0x3fff,
        MIDIEvent::SongSelect(s) => s < 0x80,
        MIDIEvent::TuneRequest => true,
        MIDIEvent::MIDIClock => true,
        MIDIEvent::MIDIStart => true,
        MIDIEvent::MIDIContinue => true,
        MIDIEvent::MIDIStop => true,
        MIDIEvent::ActiveSense => true,
        MIDIEvent::Reset => false,
        MIDIEvent::DataIncrement(c)
        | MIDIEvent::DataDecrement(c)
        | MIDIEvent::AllControllersOff(c)
        | MIDIEvent::AllNotesOff(c)
        | MIDIEvent::AllSoundOff(c)
        | MIDIEvent::OmniOff(c)
        | MIDIEvent::OmniOn(c)
        | MIDIEvent::PolyphonicOperation(c) => c < 0x10,
        MIDIEvent::TimeCode(_, _, _, _, _) => false,
        MIDIEvent::BankSelect(c, v)
        | MIDIEvent::BankSelectLSB(c, v)
        | MIDIEvent::ModulationWheel(c, v)
        | MIDIEvent::ModulationWheelLSB(c, v)
        | MIDIEvent::BreathController(c, v)
        | MIDIEvent::BreathControllerLSB(c, v)
        | MIDIEvent::FootPedal(c, v)
        | MIDIEvent::FootPedalLSB(c, v)
        | MIDIEvent::PortamentoTime(c, v)
        | MIDIEvent::PortamentoTimeLSB(c, v)
        | MIDIEvent::DataEntry(c, v)
        | MIDIEvent::DataEntryLSB(c, v)
        | MIDIEvent::Volume(c, v)
        | MIDIEvent::VolumeLSB(c, v)
        | MIDIEvent::Balance(c, v)
        | MIDIEvent::BalanceLSB(c, v)
        | MIDIEvent::Pan(c, v)
        | MIDIEvent::PanLSB(c, v)
        | MIDIEvent::Expression(c, v)
        | MIDIEvent::ExpressionLSB(c, v)
        | MIDIEvent::EffectControl1(c, v)
        | MIDIEvent::EffectControl1LSB(c, v)
        | MIDIEvent::EffectControl2(c, v)
        | MIDIEvent::EffectControl2LSB(c, v)
        | MIDIEvent::HoldPedal(c, v)
        | MIDIEvent::Portamento(c, v)
        | MIDIEvent::Sustenuto(c, v)
        | MIDIEvent::SoftPedal(c, v)
        | MIDIEvent::Legato(c, v)
        | MIDIEvent::Hold2Pedal(c, v)
        | MIDIEvent::SoundVariation(c, v)
        | MIDIEvent::SoundTimbre(c, v)
        | MIDIEvent::SoundReleaseTime(c, v)
        | MIDIEvent::SoundAttack(c, v)
        | MIDIEvent::SoundBrightness(c, v)
        | MIDIEvent::SoundControl1(c, v)
        | MIDIEvent::SoundControl2(c, v)
        | MIDIEvent::SoundControl3(c, v)
        | MIDIEvent::SoundControl4(c, v)
        | MIDIEvent::SoundControl5(c, v)
        | MIDIEvent::GeneralPurpose1(c, v)
        | MIDIEvent::GeneralPurpose1LSB(c, v)
        | MIDIEvent::GeneralPurpose2(c, v)
        | MIDIEvent::GeneralPurpose2LSB(c, v)
        | MIDIEvent::GeneralPurpose3(c, v)
        | MIDIEvent::GeneralPurpose3LSB(c, v)
        | MIDIEvent::GeneralPurpose4(c, v)
        | MIDIEvent::GeneralPurpose4LSB(c, v)
        | MIDIEvent::GeneralPurpose5(c, v)
        | MIDIEvent::GeneralPurpose6(c, v)
        | MIDIEvent::GeneralPurpose7(c, v)
        | MIDIEvent::GeneralPurpose8(c, v)
        | MIDIEvent::EffectsLevel(c, v)
        | MIDIEvent::TremuloLevel(c, v)
        | MIDIEvent::ChorusLevel(c, v)
        | MIDIEvent::CelesteLevel(c, v)
        | MIDIEvent::PhaserLevel(c, v)
        | MIDIEvent::RegisteredParameterNumber(c, v)
        | MIDIEvent::RegisteredParameterNumberLSB(c, v)
        | MIDIEvent::NonRegisteredParameterNumber(c, v)
        | MIDIEvent::NonRegisteredParameterNumberLSB(c, v)
        | MIDIEvent::LocalControl(c, v)
        | MIDIEvent::MonophonicOperation(c, v) => c < 0x10 && v < 0x80,
    }
}

/// The value an event reads back as: a note-on with velocity zero
/// canonicalizes to a note-off, everything else is itself.
pub open spec fn canonical_event(e: MIDIEvent) -> MIDIEvent {
    match e {
        MIDIEvent::NoteOn(c, n, v) => if v == 0 {
            MIDIEvent::NoteOff(c, n, 0)
        } else {
            e
        },
        _ => e,
    }
}

pub(crate) proof fn lemma_mask_id(b: u8)
    ensures
        b < 0x80 ==> (b & 0x7f) == b,
        b < 0x40 ==> (b & 0x3f) == b,
        b < 0x20 ==> (b & 0x1f) == b,
        b < 0x10 ==> (b & 0x0f) == b,
        b < 0x08 ==> (b & 0x07) == b,
        b < 0x04 ==> (b & 0x03) == b,
{
    assert(b < 0x80 ==> (b & 0x7f) == b) by (bit_vector);
    assert(b < 0x40 ==> (b & 0x3f) == b) by (bit_vector);
    assert(b < 0x20 ==> (b & 0x1f) == b) by (bit_vector);
    assert(b < 0x10 ==> (b & 0x0f) == b) by (bit_vector);
    assert(b < 0x08 ==> (b & 0x07) == b) by (bit_vector);
    assert(b < 0x04 ==> (b & 0x03) == b) by (bit_vector);
}

pub(crate) proof fn lemma_status_byte(nib: u8, ch: u8)
    requires
        nib == 0x80 || nib == 0x90 || nib == 0xa0 || nib == 0xb0 || nib == 0xc0 || nib == 0xd0
            || nib == 0xe0,
        ch < 0x10,
    ensures
        0x80 <= nib + ch < 0xf0,
        nib <= nib + ch,
        nib + ch < nib + 0x10,
        ((nib + ch) as u8) & 0x0f == ch,
{
    assert(((nib + ch) as u8) & 0x0f == ch) by (bit_vector)
        requires
            (nib == 0x80 || nib == 0x90 || nib == 0xa0 || nib == 0xb0 || nib == 0xc0 || nib
                == 0xd0 || nib == 0xe0) && ch < 0x10,
    ;
}

proof fn lemma_chan2_parse(nib: u8, ch: u8, d1: u8, d2: u8, fb: u8)
    requires
        nib == 0x80 || nib == 0x90 || nib == 0xa0 || nib == 0xb0,
        ch < 0x10,
        d1 < 0x80,
        d2 < 0x80,
    ensures
        parse_shape(crate::event::chan2(nib, ch, d1, d2), fb) == (ParseShape::Event { used: 3 }),
        event_parses_from(
            crate::event::chan2(nib, ch, d1, d2),
            fb,
            chan_event((nib + ch) as u8, d1, d2),
        ),
{
    lemma_mask_id(ch);
    lemma_mask_id(d1);
    lemma_mask_id(d2);
    lemma_status_byte(nib, ch);
    let bs = crate::event::chan2(nib, ch, d1, d2);
    assert(bs.len() == 3);
    assert(bs[0] == (nib + ch) as u8);
    assert(bs[1] == d1);
    assert(bs[2] == d2);
    assert(effective_status(bs, fb) == (nib + ch) as u8);
    assert(data_start(bs) == 1);
    assert(chan_data_count((nib + ch) as u8) == 2);
}

proof fn lemma_chan1_parse(nib: u8, ch: u8, d1: u8, fb: u8)
    requires
        nib == 0xc0 || nib == 0xd0,
        ch < 0x10,
        d1 < 0x80,
    ensures
        parse_shape(crate::event::chan1(nib, ch, d1), fb) == (ParseShape::Event { used: 2 }),
        event_parses_from(
            crate::event::chan1(nib, ch, d1),
            fb,
            chan_event((nib + ch) as u8, d1, 0),
        ),
{
    lemma_mask_id(ch);
    lemma_mask_id(d1);
    lemma_status_byte(nib, ch);
    let bs = crate::event::chan1(nib, ch, d1);
    assert(bs.len() == 2);
    assert(bs[0] == (nib + ch) as u8);
    assert(bs[1] == d1);
    assert(effective_status(bs, fb) == (nib + ch) as u8);
    assert(data_start(bs) == 1);
    assert(chan_data_count((nib + ch) as u8) == 1);
}

proof fn lemma_cc_parse(ch: u8, num: u8, val: u8, fb: u8)
    requires
        ch < 0x10,
        num < 0x80,
        val < 0x80,
    ensures
        parse_shape(crate::event::cc(ch, num, val), fb) == (ParseShape::Event { used: 3 }),
        event_parses_from(crate::event::cc(ch, num, val), fb, controller_event(ch, num, val)),
{
    lemma_chan2_parse(0xb0, ch, num, val, fb);
    lemma_status_byte(0xb0, ch);
    lemma_mask_id(num);
    lemma_mask_id(val);
    assert(chan_event((0xb0 + ch) as u8, num, val) == controller_event(ch, num, val));
}

proof fn lemma_meta_parse(tag: u8, payload: Seq<u8>, fb: u8)
    requires
        payload.len() < 0x10000000000000000,
    ensures
        ({
            let bs = crate::event::meta_bytes(tag, payload);
            let k = crate::varlen::varlen_bytes(payload.len()).len() as int;
            &&& bs.len() == 2 + k + payload.len()
            &&& k >= 1
            &&& bs[0] == 0xff
            &&& bs[1] == tag
            &&& varlen_span(bs.skip(2)) == k
            &&& (varlen_value(bs.skip(2).take(k)) % 0x10000000000000000) as int
                == payload.len()
            &&& bs.subrange(2 + k, bs.len() as int) == payload
        }),
{
    let ll = payload.len();
    crate::varlen::lemma_varlen_bytes_form(ll);
    let enc = crate::varlen::varlen_bytes(ll);
    let k = enc.len() as int;
    let bs = crate::event::meta_bytes(tag, payload);
    assert(bs.skip(2) =~= enc + payload);
    let t = bs.skip(2);
    assert forall|i: int| 0 <= i < k - 1 implies #[trigger] t[i] >= 0x80 by {
        assert(t[i] == enc[i]);
    }
    assert(t[k - 1] == enc[k - 1]);
    assert(enc[k - 1] == enc.last());
    crate::varlen::lemma_varlen_span_at(t, k);
    assert(t.take(k) =~= enc);
    vstd::arithmetic::div_mod::lemma_small_mod(ll, 0x10000000000000000);
    assert(bs.subrange(2 + k, bs.len() as int) =~= payload);
}

pub(crate) proof fn lemma_sysex_parse(d: Seq<u8>, fb: u8)
    requires
        forall|i: int| 0 <= i < d.len() ==> #[trigger] d[i] != 0xf7,
        d.len() < 0x10000000000000000,
    ensures
        ({
            let bs = seq![0xf0u8] + d + seq![0xf7u8];
            &&& parse_shape(bs, fb) == (ParseShape::Event { used: bs.len() as int })
            &&& sysex_end(bs, 1) == 1 + d.len()
            &&& bs.subrange(1, 1 + d.len() as int) == d
        }),
{
    let bs = seq![0xf0u8] + d + seq![0xf7u8];
    assert(bs.len() == d.len() + 2);
    assert(bs[0] == 0xf0);
    assert forall|j: int| 1 <= j < 1 + d.len() implies #[trigger] bs[j] != 0xf7 by {
        assert(bs[j] == d[j - 1]);
    }
    assert(bs[1 + d.len() as int] == 0xf7);
    lemma_sysex_end_at(bs, 1, 1 + d.len() as int);
    assert(bs.subrange(1, 1 + d.len() as int) =~= d);
    assert(effective_status(bs, fb) == 0xf0);
    assert(data_start(bs) == 1);
}

proof fn lemma_be2(a: u8, b: u8)
    ensures
        be_value(seq![a, b]) == a * 0x100 + b,
{
    let s = seq![a, b];
    assert(s.drop_last() =~= seq![a]);
    assert(seq![a].drop_last() =~= Seq::<u8>::empty());
    assert(be_value(Seq::<u8>::empty()) == 0);
    assert(seq![a].last() == a);
    assert(be_value(seq![a]) == a);
    assert(s.last() == b);
}

proof fn lemma_be3(a: u8, b: u8, c: u8)
    ensures
        be_value(seq![a, b, c]) == (a * 0x100 + b) * 0x100 + c,
{
    let s = seq![a, b, c];
    assert(s.drop_last() =~= seq![a, b]);
    lemma_be2(a, b);
}

proof fn lemma_cc_round_trip(e: MIDIEvent, ch: u8, num: u8, val: u8, fb: u8)
    requires
        ch < 0x10,
        num < 0x80,
        val < 0x80,
        crate::event::event_bytes(e) == crate::event::cc(ch, num, val),
        canonical_event(e) == controller_event(ch, num, val),
    ensures
        parse_shape(crate::event::event_bytes(e), fb) == (ParseShape::Event {
            used: crate::event::event_bytes(e).len() as int,
        }),
        event_parses_from(crate::event::event_bytes(e), fb, canonical_event(e)),
{
    lemma_cc_parse(ch, num, val, fb);
    assert(crate::event::cc(ch, num, val).len() == 3);
}

/// Law: a well-formed event deserializes from its own serialization, up to
/// the documented canonicalization (a note-on with velocity zero reads back
/// as a note-off), under any running-status fallback.
#[verifier::rlimit(100)]
#[verifier::spinoff_prover]
pub proof fn lemma_event_round_trip(e: MIDIEvent, fb: u8)
    requires
        wf_file_event(e),
    ensures
        parse_shape(crate::event::event_bytes(e), fb) == (ParseShape::Event {
            used: crate::event::event_bytes(e).len() as int,
        }),
        event_parses_from(crate::event::event_bytes(e), fb, canonical_event(e)),
{
    match e {
        MIDIEvent::SequenceNumber(n) => {
            let hi = (n / 0x100) as u8;
            let lo = (n % 0x100) as u8;
            let payload = seq![hi, lo];
            assert(crate::event::event_bytes(e) =~= crate::event::meta_bytes(0x00, payload));
            lemma_meta_parse(0x00, payload, fb);
            lemma_be2(hi, lo);
            vstd::arithmetic::div_mod::lemma_fundamental_div_mod(n as int, 0x100);
            vstd::arithmetic::div_mod::lemma_small_mod(n as nat, 0x10000);
            assert(payload[0] == hi && payload[1] == lo);
        },
        MIDIEvent::Text(s) => {
            lemma_meta_parse(0x01, encode_utf8(s@), fb);
            vstd::utf8::encode_utf8_valid_utf8(s@);
        },
        MIDIEvent::CopyRightNotice(s) => {
            lemma_meta_parse(0x02, encode_utf8(s@), fb);
            vstd::utf8::encode_utf8_valid_utf8(s@);
        },
        MIDIEvent::TrackName(s) => {
            lemma_meta_parse(0x03, encode_utf8(s@), fb);
            vstd::utf8::encode_utf8_valid_utf8(s@);
        },
        MIDIEvent::InstrumentName(s) => {
            lemma_meta_parse(0x04, encode_utf8(s@), fb);
            vstd::utf8::encode_utf8_valid_utf8(s@);
        },
        MIDIEvent::Lyric(s) => {
            lemma_meta_parse(0x05, encode_utf8(s@), fb);
            vstd::utf8::encode_utf8_valid_utf8(s@);
        },
        MIDIEvent::Marker(s) => {
            lemma_meta_parse(0x06, encode_utf8(s@), fb);
            vstd::utf8::encode_utf8_valid_utf8(s@);
        },
        MIDIEvent::CuePoint(s) => {
            lemma_meta_parse(0x07, encode_utf8(s@), fb);
            vstd::utf8::encode_utf8_valid_utf8(s@);
        },
        MIDIEvent::EndOfTrack => {
            let payload = Seq::<u8>::empty();
            assert(crate::event::event_bytes(e) =~= crate::event::meta_bytes(0x2f, payload));
            lemma_meta_parse(0x2f, payload, fb);
        },
        MIDIEvent::ChannelPrefix(ch) => {
            let payload = seq![ch];
            assert(crate::event::event_bytes(e) =~= crate::event::meta_bytes(0x20, payload));
            lemma_meta_parse(0x20, payload, fb);
            assert(payload[0] == ch);
        },
        MIDIEvent::SetTempo(t) => {
            let b2 = ((t / 0x10000) % 0x100) as u8;
            let b1 = ((t / 0x100) % 0x100) as u8;
            let b0 = (t % 0x100) as u8;
            let payload = seq![b2, b1, b0];
            assert(crate::event::event_bytes(e) =~= crate::event::meta_bytes(0x51, payload));
            lemma_meta_parse(0x51, payload, fb);
            lemma_be3(b2, b1, b0);
            let q1 = t as int / 0x100;
            vstd::arithmetic::div_mod::lemma_fundamental_div_mod(t as int, 0x100);
            vstd::arithmetic::div_mod::lemma_fundamental_div_mod(q1, 0x100);
            assert(t as int == (q1 / 0x100) * 0x10000 + (q1 % 0x100) * 0x100 + (t as int
                % 0x100));
            vstd::arithmetic::div_mod::lemma_fundamental_div_mod_converse(
                t as int,
                0x10000,
                q1 / 0x100,
                (q1 % 0x100) * 0x100 + (t as int % 0x100),
            );
            vstd::arithmetic::div_mod::lemma_small_mod((t as int / 0x10000) as nat, 0x100);
            vstd::arithmetic::div_mod::lemma_small_mod(t as nat, 0x100000000);
            assert(payload[0] == b2 && payload[1] == b1 && payload[2] == b0);
            assert(be_value(payload) == t);
        },
        MIDIEvent::SMPTEOffset(h, m, s, ff, fr) => {
            let payload = seq![h, m, s, ff, fr];
            assert(crate::event::event_bytes(e) =~= crate::event::meta_bytes(0x54, payload));
            lemma_meta_parse(0x54, payload, fb);
            assert(payload[0] == h && payload[1] == m && payload[2] == s && payload[3] == ff
                && payload[4] == fr);
        },
        MIDIEvent::TimeSignature(n, d, c, t) => {
            let payload = seq![n, d, c, t];
            assert(crate::event::event_bytes(e) =~= crate::event::meta_bytes(0x58, payload));
            lemma_meta_parse(0x58, payload, fb);
            assert(payload[0] == n && payload[1] == d && payload[2] == c && payload[3] == t);
        },
        MIDIEvent::KeySignature(k) => {
            let mi = crate::keysig::key_mi_sf(k@).0;
            let sf = crate::keysig::key_mi_sf(k@).1;
            let payload = seq![sf, mi];
            assert(crate::event::event_bytes(e) =~= crate::event::meta_bytes(0x59, payload));
            lemma_meta_parse(0x59, payload, fb);
            crate::keysig::lemma_key_name_round_trip(k@);
            assert(payload[0] == sf && payload[1] == mi);
        },
        MIDIEvent::SequencerSpecific(d) => {
            lemma_meta_parse(0x7f, d@, fb);
        },
        MIDIEvent::NoteOn(c, n, v) => {
            lemma_chan2_parse(0x90, c, n, v, fb);
            lemma_status_byte(0x90, c);
            lemma_mask_id(n);
            lemma_mask_id(v);
            assert(chan_event((0x90 + c) as u8, n, v) == canonical_event(e));
        },
        MIDIEvent::NoteOff(c, n, v) => {
            lemma_chan2_parse(0x80, c, n, v, fb);
            lemma_status_byte(0x80, c);
            lemma_mask_id(n);
            lemma_mask_id(v);
            assert(chan_event((0x80 + c) as u8, n, v) == e);
        },
        MIDIEvent::AfterTouch(c, n, v) => {
            lemma_chan2_parse(0xa0, c, n, v, fb);
            lemma_status_byte(0xa0, c);
            lemma_mask_id(n);
            lemma_mask_id(v);
            assert(chan_event((0xa0 + c) as u8, n, v) == e);
        },
        MIDIEvent::ControlChange(c, num, v) => {
            lemma_cc_round_trip(e, c, num, v, fb);
        },
        MIDIEvent::ProgramChange(c, p) => {
            lemma_chan1_parse(0xc0, c, p, fb);
            lemma_status_byte(0xc0, c);
            lemma_mask_id(p);
            assert(chan_event((0xc0 + c) as u8, p, 0) == e);
        },
        MIDIEvent::ChannelPressure(c, p) => {
            lemma_chan1_parse(0xd0, c, p, fb);
            lemma_status_byte(0xd0, c);
            lemma_mask_id(p);
            assert(chan_event((0xd0 + c) as u8, p, 0) == e);
        },
        MIDIEvent::PitchWheelChange(c, w) => {
            assert(w & 0x3fff == w) by (bit_vector)
                requires
                    w <= 0x3fff,
            ;
            lemma_status_byte(0xe0, c);
            lemma_mask_id(c);
            let bs = crate::event::event_bytes(e);
            let d1 = ((w & 0x3fff) % 0x80) as u8;
            let d2 = ((w & 0x3fff) / 0x80) as u8;
            lemma_mask_id(d1);
            lemma_mask_id(d2);
            assert(bs.len() == 3);
            assert(bs[0] == (0xe0 + c) as u8);
            assert(bs[1] == d1);
            assert(bs[2] == d2);
            assert(effective_status(bs, fb) == (0xe0 + c) as u8);
            assert(data_start(bs) == 1);
            assert(chan_data_count((0xe0 + c) as u8) == 2);
            vstd::arithmetic::div_mod::lemma_fundamental_div_mod(w as int, 0x80);
            assert(chan_event((0xe0 + c) as u8, d1, d2) == e);
        },
        MIDIEvent::SystemExclusive(d) => {
            lemma_sysex_parse(d@, fb);
            assert(crate::event::event_bytes(e) == seq![0xf0u8] + d@ + seq![0xf7u8]);
        },
        MIDIEvent::MTCQuarterFrame(t, v) => {
            lemma_mask_id(t);
            let ghost vv = v;
            assert(v & 0x0f == v) by (bit_vector)
                requires
                    v < 0x10,
            ;
            let bs = crate::event::event_bytes(e);
            let b2 = ((t & 0x07) * 0x10 + (v & 0x0f)) as u8;
            assert(bs.len() == 2);
            assert(bs[0] == 0xf1);
            assert(bs[1] == b2);
            assert((b2 & 0x70) / 0x10 == t && b2 & 0x0f == v) by (bit_vector)
                requires
                    t < 0x08 && v < 0x10 && b2 == ((t & 0x07) * 0x10 + (v & 0x0f)) as u8,
            ;
            assert(effective_status(bs, fb) == 0xf1);
            assert(data_start(bs) == 1);
        },
        MIDIEvent::SongPositionPointer(b) => {
            let bs = crate::event::event_bytes(e);
            let d1 = (b % 0x80) as u8;
            let d2 = ((b / 0x80) % 0x80) as u8;
            lemma_mask_id(d1);
            lemma_mask_id(d2);
            assert(bs.len() == 3);
            assert(bs[0] == 0xf2);
            assert(bs[1] == d1);
            assert(bs[2] == d2);
            vstd::arithmetic::div_mod::lemma_fundamental_div_mod(b as int, 0x80);
            vstd::arithmetic::div_mod::lemma_small_mod((b as int / 0x80) as nat, 0x80);
            assert(effective_status(bs, fb) == 0xf2);
            assert(data_start(bs) == 1);
        },
        MIDIEvent::SongSelect(s) => {
            lemma_mask_id(s);
            let bs = crate::event::event_bytes(e);
            assert(bs.len() == 2);
            assert(bs[0] == 0xf3);
            assert(bs[1] == (s & 0x7f));
            assert(effective_status(bs, fb) == 0xf3);
            assert(data_start(bs) == 1);
        },
        MIDIEvent::TuneRequest => {
            let bs = crate::event::event_bytes(e);
            assert(bs.len() == 1 && bs[0] == 0xf6);
        },
        MIDIEvent::MIDIClock => {
            let bs = crate::event::event_bytes(e);
            assert(bs.len() == 1 && bs[0] == 0xf8);
        },
        MIDIEvent::MIDIStart => {
            let bs = crate::event::event_bytes(e);
            assert(bs.len() == 1 && bs[0] == 0xfa);
        },
        MIDIEvent::MIDIContinue => {
            let bs = crate::event::event_bytes(e);
            assert(bs.len() == 1 && bs[0] == 0xfb);
        },
        MIDIEvent::MIDIStop => {
            let bs = crate::event::event_bytes(e);
            assert(bs.len() == 1 && bs[0] == 0xfc);
        },
        MIDIEvent::ActiveSense => {
            let bs = crate::event::event_bytes(e);
            assert(bs.len() == 1 && bs[0] == 0xfe);
        },
        MIDIEvent::Reset => {
        },
        MIDIEvent::TimeCode(_, _, _, _, _) => {
        },
        MIDIEvent::BankSelect(c, v) => {
            lemma_cc_round_trip(e, c, 0x00, v, fb);
        },
        MIDIEvent::BankSelectLSB(c, v) => {
            lemma_cc_round_trip(e, c, 0x20, v, fb);
        },
        MIDIEvent::ModulationWheel(c, v) => {
            lemma_cc_round_trip(e, c, 0x01, v, fb);
        },
        MIDIEvent::ModulationWheelLSB(c, v) => {
            lemma_cc_round_trip(e, c, 0x21, v, fb);
        },
        MIDIEvent::BreathController(c, v) => {
            lemma_cc_round_trip(e, c, 0x02, v, fb);
        },
        MIDIEvent::BreathControllerLSB(c, v) => {
            lemma_cc_round_trip(e, c, 0x22, v, fb);
        },
        MIDIEvent::FootPedal(c, v) => {
            lemma_cc_round_trip(e, c, 0x04, v, fb);
        },
        MIDIEvent::FootPedalLSB(c, v) => {
            lemma_cc_round_trip(e, c, 0x24, v, fb);
        },
        MIDIEvent::PortamentoTime(c, v) => {
            lemma_cc_round_trip(e, c, 0x05, v, fb);
        },
        MIDIEvent::PortamentoTimeLSB(c, v) => {
            lemma_cc_round_trip(e, c, 0x25, v, fb);
        },
        MIDIEvent::DataEntry(c, v) => {
            lemma_cc_round_trip(e, c, 0x06, v, fb);
        },
        MIDIEvent::DataEntryLSB(c, v) => {
            lemma_cc_round_trip(e, c, 0x26, v, fb);
        },
        MIDIEvent::Volume(c, v) => {
            lemma_cc_round_trip(e, c, 0x07, v, fb);
        },
        MIDIEvent::VolumeLSB(c, v) => {
            lemma_cc_round_trip(e, c, 0x27, v, fb);
        },
        MIDIEvent::Balance(c, v) => {
            lemma_cc_round_trip(e, c, 0x08, v, fb);
        },
        MIDIEvent::BalanceLSB(c, v) => {
            lemma_cc_round_trip(e, c, 0x28, v, fb);
        },
        MIDIEvent::Pan(c, v) => {
            lemma_cc_round_trip(e, c, 0x0a, v, fb);
        },
        MIDIEvent::PanLSB(c, v) => {
            lemma_cc_round_trip(e, c, 0x2a, v, fb);
        },
        MIDIEvent::Expression(c, v) => {
            lemma_cc_round_trip(e, c, 0x0b, v, fb);
        },
        MIDIEvent::ExpressionLSB(c, v) => {
            lemma_cc_round_trip(e, c, 0x2b, v, fb);
        },
        MIDIEvent::EffectControl1(c, v) => {
            lemma_cc_round_trip(e, c, 0x0c, v, fb);
        },
        MIDIEvent::EffectControl1LSB(c, v) => {
            lemma_cc_round_trip(e, c, 0x2c, v, fb);
        },
        MIDIEvent::EffectControl2(c, v) => {
            lemma_cc_round_trip(e, c, 0x0d, v, fb);
        },
        MIDIEvent::EffectControl2LSB(c, v) => {
            lemma_cc_round_trip(e, c, 0x2d, v, fb);
        },
        MIDIEvent::HoldPedal(c, v) => {
            lemma_cc_round_trip(e, c, 0x40, v, fb);
        },
        MIDIEvent::Portamento(c, v) => {
            lemma_cc_round_trip(e, c, 0x41, v, fb);
        },
        MIDIEvent::Sustenuto(c, v) => {
            lemma_cc_round_trip(e, c, 0x42, v, fb);
        },
        MIDIEvent::SoftPedal(c, v) => {
            lemma_cc_round_trip(e, c, 0x43, v, fb);
        },
        MIDIEvent::Legato(c, v) => {
            lemma_cc_round_trip(e, c, 0x44, v, fb);
        },
        MIDIEvent::Hold2Pedal(c, v) => {
            lemma_cc_round_trip(e, c, 0x45, v, fb);
        },
        MIDIEvent::SoundVariation(c, v) => {
            lemma_cc_round_trip(e, c, 0x46, v, fb);
        },
        MIDIEvent::SoundTimbre(c, v) => {
            lemma_cc_round_trip(e, c, 0x47, v, fb);
        },
        MIDIEvent::SoundReleaseTime(c, v) => {
            lemma_cc_round_trip(e, c, 0x48, v, fb);
        },
        MIDIEvent::SoundAttack(c, v) => {
            lemma_cc_round_trip(e, c, 0x49, v, fb);
        },
        MIDIEvent::SoundBrightness(c, v) => {
            lemma_cc_round_trip(e, c, 0x4a, v, fb);
        },
        MIDIEvent::SoundControl1(c, v) => {
            lemma_cc_round_trip(e, c, 0x4b, v, fb);
        },
        MIDIEvent::SoundControl2(c, v) => {
            lemma_cc_round_trip(e, c, 0x4c, v, fb);
        },
        MIDIEvent::SoundControl3(c, v) => {
            lemma_cc_round_trip(e, c, 0x4d, v, fb);
        },
        MIDIEvent::SoundControl4(c, v) => {
            lemma_cc_round_trip(e, c, 0x4e, v, fb);
        },
        MIDIEvent::SoundControl5(c, v) => {
            lemma_cc_round_trip(e, c, 0x4f, v, fb);
        },
        MIDIEvent::GeneralPurpose1(c, v) => {
            lemma_cc_round_trip(e, c, 0x10, v, fb);
        },
        MIDIEvent::GeneralPurpose1LSB(c, v) => {
            lemma_cc_round_trip(e, c, 0x30, v, fb);
        },
        MIDIEvent::GeneralPurpose2(c, v) => {
            lemma_cc_round_trip(e, c, 0x11, v, fb);
        },
        MIDIEvent::GeneralPurpose2LSB(c, v) => {
            lemma_cc_round_trip(e, c, 0x31, v, fb);
        },
        MIDIEvent::GeneralPurpose3(c, v) => {
            lemma_cc_round_trip(e, c, 0x12, v, fb);
        },
        MIDIEvent::GeneralPurpose3LSB(c, v) => {
            lemma_cc_round_trip(e, c, 0x32, v, fb);
        },
        MIDIEvent::GeneralPurpose4(c, v) => {
            lemma_cc_round_trip(e, c, 0x13, v, fb);
        },
        MIDIEvent::GeneralPurpose4LSB(c, v) => {
            lemma_cc_round_trip(e, c, 0x33, v, fb);
        },
        MIDIEvent::GeneralPurpose5(c, v) => {
            lemma_cc_round_trip(e, c, 0x50, v, fb);
        },
        MIDIEvent::GeneralPurpose6(c, v) => {
            lemma_cc_round_trip(e, c, 0x51, v, fb);
        },
        MIDIEvent::GeneralPurpose7(c, v) => {
            lemma_cc_round_trip(e, c, 0x52, v, fb);
        },
        MIDIEvent::GeneralPurpose8(c, v) => {
            lemma_cc_round_trip(e, c, 0x53, v, fb);
        },
        MIDIEvent::EffectsLevel(c, v) => {
            lemma_cc_round_trip(e, c, 0x5b, v, fb);
        },
        MIDIEvent::TremuloLevel(c, v) => {
            lemma_cc_round_trip(e, c, 0x5c, v, fb);
        },
        MIDIEvent::ChorusLevel(c, v) => {
            lemma_cc_round_trip(e, c, 0x5d, v, fb);
        },
        MIDIEvent::CelesteLevel(c, v) => {
            lemma_cc_round_trip(e, c, 0x5e, v, fb);
        },
        MIDIEvent::PhaserLevel(c, v) => {
            lemma_cc_round_trip(e, c, 0x5f, v, fb);
        },
        MIDIEvent::DataIncrement(c) => {
            lemma_cc_round_trip(e, c, 0x60, 0x00, fb);
        },
        MIDIEvent::DataDecrement(c) => {
            lemma_cc_round_trip(e, c, 0x61, 0x00, fb);
        },
        MIDIEvent::NonRegisteredParameterNumberLSB(c, v) => {
            lemma_cc_round_trip(e, c, 0x62, v, fb);
        },
        MIDIEvent::NonRegisteredParameterNumber(c, v) => {
            lemma_cc_round_trip(e, c, 0x63, v, fb);
        },
        MIDIEvent::RegisteredParameterNumberLSB(c, v) => {
            lemma_cc_round_trip(e, c, 0x64, v, fb);
        },
        MIDIEvent::RegisteredParameterNumber(c, v) => {
            lemma_cc_round_trip(e, c, 0x65, v, fb);
        },
        MIDIEvent::AllSoundOff(c) => {
            lemma_cc_round_trip(e, c, 0x78, 0x00, fb);
        },
        MIDIEvent::AllControllersOff(c) => {
            lemma_cc_round_trip(e, c, 0x79, 0x00, fb);
        },
        MIDIEvent::LocalControl(c, v) => {
            lemma_cc_round_trip(e, c, 0x7a, v, fb);
        },
        MIDIEvent::AllNotesOff(c) => {
            lemma_cc_round_trip(e, c, 0x7b, 0x00, fb);
        },
        MIDIEvent::OmniOff(c) => {
            lemma_cc_round_trip(e, c, 0x7c, 0x00, fb);
        },
        MIDIEvent::OmniOn(c) => {
            lemma_cc_round_trip(e, c, 0x7d, 0x00, fb);
        },
        MIDIEvent::MonophonicOperation(c, v) => {
            lemma_cc_round_trip(e, c, 0x7e, v, fb);
        },
        MIDIEvent::PolyphonicOperation(c) => {
            lemma_cc_round_trip(e, c, 0x7f, 0x00, fb);
        },
    }
}

} // verus!
