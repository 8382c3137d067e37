//! The event model: one variant per MIDI message kind, each with a byte-exact
//! wire encoding.
//!
//! Meta events are framed as `FF <sub-type> <varlen length> <payload>`;
//! channel voice and mode messages as `<status nibble | channel> <data>`;
//! system-exclusive dumps as `F0 <data> F7`. Serialization masks channels to
//! four bits and data values to seven, and always emits a full status byte.

use crate::keysig::key_mi_sf;
use crate::varlen::varlen_bytes;
use vstd::prelude::*;
use vstd::string::StrSliceExecFns;
use vstd::utf8::encode_utf8;

verus! {

/// One MIDI message. Pitch-wheel values are kept in their unsigned 14-bit
/// wire form with 0x2000 as the center; key signatures are kept as their
/// human key name; time-code rates are kept as the two-bit code the wire
/// carries (0 for 24, 1 for 25, 2 for 29.97, 3 for 30 frames per second).
#[derive(Clone, Debug, PartialEq)]
pub enum MIDIEvent {
    SequenceNumber(u16),
    Text(String),
    CopyRightNotice(String),
    TrackName(String),
    InstrumentName(String),
    Lyric(String),
    Marker(String),
    CuePoint(String),
    EndOfTrack,
    ChannelPrefix(u8),
    SetTempo(u32),
    SMPTEOffset(u8, u8, u8, u8, u8),
    TimeSignature(u8, u8, u8, u8),
    KeySignature(String),
    SequencerSpecific(Vec<u8>),
    NoteOn(u8, u8, u8),
    NoteOff(u8, u8, u8),
    AfterTouch(u8, u8, u8),
    ControlChange(u8, u8, u8),
    ProgramChange(u8, u8),
    ChannelPressure(u8, u8),
    PitchWheelChange(u8, u16),
    SystemExclusive(Vec<u8>),
    MTCQuarterFrame(u8, u8),
    SongPositionPointer(u16),
    SongSelect(u8),
    TuneRequest,
    MIDIClock,
    MIDIStart,
    MIDIContinue,
    MIDIStop,
    ActiveSense,
    Reset,
    BankSelect(u8, u8),
    BankSelectLSB(u8, u8),
    ModulationWheel(u8, u8),
    ModulationWheelLSB(u8, u8),
    BreathController(u8, u8),
    BreathControllerLSB(u8, u8),
    FootPedal(u8, u8),
    FootPedalLSB(u8, u8),
    PortamentoTime(u8, u8),
    PortamentoTimeLSB(u8, u8),
    DataEntry(u8, u8),
    DataEntryLSB(u8, u8),
    Volume(u8, u8),
    VolumeLSB(u8, u8),
    Balance(u8, u8),
    BalanceLSB(u8, u8),
    Pan(u8, u8),
    PanLSB(u8, u8),
    Expression(u8, u8),
    ExpressionLSB(u8, u8),
    EffectControl1(u8, u8),
    EffectControl1LSB(u8, u8),
    EffectControl2(u8, u8),
    EffectControl2LSB(u8, u8),
    HoldPedal(u8, u8),
    Portamento(u8, u8),
    Sustenuto(u8, u8),
    SoftPedal(u8, u8),
    Legato(u8, u8),
    Hold2Pedal(u8, u8),
    SoundVariation(u8, u8),
    SoundTimbre(u8, u8),
    SoundReleaseTime(u8, u8),
    SoundAttack(u8, u8),
    SoundBrightness(u8, u8),
    SoundControl1(u8, u8),
    SoundControl2(u8, u8),
    SoundControl3(u8, u8),
    SoundControl4(u8, u8),
    SoundControl5(u8, u8),
    GeneralPurpose1(u8, u8),
    GeneralPurpose1LSB(u8, u8),
    GeneralPurpose2(u8, u8),
    GeneralPurpose2LSB(u8, u8),
    GeneralPurpose3(u8, u8),
    GeneralPurpose3LSB(u8, u8),
    GeneralPurpose4(u8, u8),
    GeneralPurpose4LSB(u8, u8),
    GeneralPurpose5(u8, u8),
    GeneralPurpose6(u8, u8),
    GeneralPurpose7(u8, u8),
    GeneralPurpose8(u8, u8),
    EffectsLevel(u8, u8),
    TremuloLevel(u8, u8),
    ChorusLevel(u8, u8),
    CelesteLevel(u8, u8),
    PhaserLevel(u8, u8),
    DataIncrement(u8),
    DataDecrement(u8),
    RegisteredParameterNumber(u8, u8),
    RegisteredParameterNumberLSB(u8, u8),
    NonRegisteredParameterNumber(u8, u8),
    NonRegisteredParameterNumberLSB(u8, u8),
    AllControllersOff(u8),
    LocalControl(u8, u8),
    AllNotesOff(u8),
    AllSoundOff(u8),
    OmniOff(u8),
    OmniOn(u8),
    MonophonicOperation(u8, u8),
    PolyphonicOperation(u8),
    TimeCode(u8, u8, u8, u8, u8),
}

/// A two-data-byte channel message: status nibble plus channel, then the two
/// data bytes masked to seven bits.
pub open spec fn chan2(status: u8, ch: u8, d1: u8, d2: u8) -> Seq<u8> {
    seq![(status + (ch & 0x0f)) as u8, d1 & 0x7f, d2 & 0x7f]
}

/// A one-data-byte channel message.
pub open spec fn chan1(status: u8, ch: u8, d1: u8) -> Seq<u8> {
    seq![(status + (ch & 0x0f)) as u8, d1 & 0x7f]
}

/// A control-change message for controller number `num`.
pub open spec fn cc(ch: u8, num: u8, val: u8) -> Seq<u8> {
    chan2(0xb0, ch, num, val)
}

/// A meta event: lead byte, sub-type, variable-length payload length, payload.
pub open spec fn meta_bytes(tag: u8, payload: Seq<u8>) -> Seq<u8> {
    seq![0xffu8, tag] + varlen_bytes(payload.len()) + payload
}

/// The serialized wire form of `e`. Every event has exactly one encoding.
pub open spec fn event_bytes(e: MIDIEvent) -> Seq<u8> {
    match e {
        MIDIEvent::SequenceNumber(n) => seq![
            0xffu8,
            0x00u8,
            0x02u8,
            (n / 0x100) as u8,
            (n % 0x100) as u8,
        ],
        MIDIEvent::Text(s) => meta_bytes(0x01, encode_utf8(s@)),
        MIDIEvent::CopyRightNotice(s) => meta_bytes(0x02, encode_utf8(s@)),
        MIDIEvent::TrackName(s) => meta_bytes(0x03, encode_utf8(s@)),
        MIDIEvent::InstrumentName(s) => meta_bytes(0x04, encode_utf8(s@)),
        MIDIEvent::Lyric(s) => meta_bytes(0x05, encode_utf8(s@)),
        MIDIEvent::Marker(s) => meta_bytes(0x06, encode_utf8(s@)),
        MIDIEvent::CuePoint(s) => meta_bytes(0x07, encode_utf8(s@)),
        MIDIEvent::EndOfTrack => seq![0xffu8, 0x2fu8, 0x00u8],
        MIDIEvent::ChannelPrefix(ch) => seq![0xffu8, 0x20u8, 0x01u8, ch],
        MIDIEvent::SetTempo(t) => seq![
            0xffu8,
            0x51u8,
            0x03u8,
            ((t / 0x10000) % 0x100) as u8,
            ((t / 0x100) % 0x100) as u8,
            (t % 0x100) as u8,
        ],
        MIDIEvent::SMPTEOffset(h, m, s, ff, fr) => seq![0xffu8, 0x54u8, 0x05u8, h, m, s, ff, fr],
        MIDIEvent::TimeSignature(n, d, c, t) => seq![0xffu8, 0x58u8, 0x04u8, n, d, c, t],
        MIDIEvent::KeySignature(k) => seq![
            0xffu8,
            0x59u8,
            0x02u8,
            key_mi_sf(k@).1,
            key_mi_sf(k@).0,
        ],
        MIDIEvent::SequencerSpecific(d) => meta_bytes(0x7f, d@),
        MIDIEvent::NoteOn(ch, n, v) => chan2(0x90, ch, n, v),
        MIDIEvent::NoteOff(ch, n, v) => chan2(0x80, ch, n, v),
        MIDIEvent::AfterTouch(ch, n, v) => chan2(0xa0, ch, n, v),
        MIDIEvent::ControlChange(ch, num, v) => cc(ch, num, v),
        MIDIEvent::ProgramChange(ch, p) => chan1(0xc0, ch, p),
        MIDIEvent::ChannelPressure(ch, p) => chan1(0xd0, ch, p),
        MIDIEvent::PitchWheelChange(ch, w) => seq![
            (0xe0 + (ch & 0x0f)) as u8,
            ((w & 0x3fff) % 0x80) as u8,
            ((w & 0x3fff) / 0x80) as u8,
        ],
        MIDIEvent::SystemExclusive(d) => seq![0xf0u8] + d@ + seq![0xf7u8],
        MIDIEvent::MTCQuarterFrame(t, v) => seq![
            0xf1u8,
            ((t & 0x07) * 0x10 + (v & 0x0f)) as u8,
        ],
        MIDIEvent::SongPositionPointer(b) => seq![
            0xf2u8,
            (b % 0x80) as u8,
            ((b / 0x80) % 0x80) as u8,
        ],
        MIDIEvent::SongSelect(s) => seq![0xf3u8, s & 0x7f],
        MIDIEvent::TuneRequest => seq![0xf6u8],
        MIDIEvent::MIDIClock => seq![0xf8u8],
        MIDIEvent::MIDIStart => seq![0xfau8],
        MIDIEvent::MIDIContinue => seq![0xfbu8],
        MIDIEvent::MIDIStop => seq![0xfcu8],
        MIDIEvent::ActiveSense => seq![0xfeu8],
        MIDIEvent::Reset => seq![0xffu8],
        MIDIEvent::BankSelect(ch, v) => cc(ch, 0x00, v),
        MIDIEvent::BankSelectLSB(ch, v) => cc(ch, 0x20, v),
        MIDIEvent::ModulationWheel(ch, v) => cc(ch, 0x01, v),
        MIDIEvent::ModulationWheelLSB(ch, v) => cc(ch, 0x21, v),
        MIDIEvent::BreathController(ch, v) => cc(ch, 0x02, v),
        MIDIEvent::BreathControllerLSB(ch, v) => cc(ch, 0x22, v),
        MIDIEvent::FootPedal(ch, v) => cc(ch, 0x04, v),
        MIDIEvent::FootPedalLSB(ch, v) => cc(ch, 0x24, v),
        MIDIEvent::PortamentoTime(ch, v) => cc(ch, 0x05, v),
        MIDIEvent::PortamentoTimeLSB(ch, v) => cc(ch, 0x25, v),
        MIDIEvent::DataEntry(ch, v) => cc(ch, 0x06, v),
        MIDIEvent::DataEntryLSB(ch, v) => cc(ch, 0x26, v),
        MIDIEvent::Volume(ch, v) => cc(ch, 0x07, v),
        MIDIEvent::VolumeLSB(ch, v) => cc(ch, 0x27, v),
        MIDIEvent::Balance(ch, v) => cc(ch, 0x08, v),
        MIDIEvent::BalanceLSB(ch, v) => cc(ch, 0x28, v),
        MIDIEvent::Pan(ch, v) => cc(ch, 0x0a, v),
        MIDIEvent::PanLSB(ch, v) => cc(ch, 0x2a, v),
        MIDIEvent::Expression(ch, v) => cc(ch, 0x0b, v),
        MIDIEvent::ExpressionLSB(ch, v) => cc(ch, 0x2b, v),
        MIDIEvent::EffectControl1(ch, v) => cc(ch, 0x0c, v),
        MIDIEvent::EffectControl1LSB(ch, v) => cc(ch, 0x2c, v),
        MIDIEvent::EffectControl2(ch, v) => cc(ch, 0x0d, v),
        MIDIEvent::EffectControl2LSB(ch, v) => cc(ch, 0x2d, v),
        MIDIEvent::HoldPedal(ch, v) => cc(ch, 0x40, v),
        MIDIEvent::Portamento(ch, v) => cc(ch, 0x41, v),
        MIDIEvent::Sustenuto(ch, v) => cc(ch, 0x42, v),
        MIDIEvent::SoftPedal(ch, v) => cc(ch, 0x43, v),
        MIDIEvent::Legato(ch, v) => cc(ch, 0x44, v),
        MIDIEvent::Hold2Pedal(ch, v) => cc(ch, 0x45, v),
        MIDIEvent::SoundVariation(ch, v) => cc(ch, 0x46, v),
        MIDIEvent::SoundTimbre(ch, v) => cc(ch, 0x47, v),
        MIDIEvent::SoundReleaseTime(ch, v) => cc(ch, 0x48, v),
        MIDIEvent::SoundAttack(ch, v) => cc(ch, 0x49, v),
        MIDIEvent::SoundBrightness(ch, v) => cc(ch, 0x4a, v),
        MIDIEvent::SoundControl1(ch, v) => cc(ch, 0x4b, v),
        MIDIEvent::SoundControl2(ch, v) => cc(ch, 0x4c, v),
        MIDIEvent::SoundControl3(ch, v) => cc(ch, 0x4d, v),
        MIDIEvent::SoundControl4(ch, v) => cc(ch, 0x4e, v),
        MIDIEvent::SoundControl5(ch, v) => cc(ch, 0x4f, v),
        MIDIEvent::GeneralPurpose1(ch, v) => cc(ch, 0x10, v),
        MIDIEvent::GeneralPurpose1LSB(ch, v) => cc(ch, 0x30, v),
        MIDIEvent::GeneralPurpose2(ch, v) => cc(ch, 0x11, v),
        MIDIEvent::GeneralPurpose2LSB(ch, v) => cc(ch, 0x31, v),
        MIDIEvent::GeneralPurpose3(ch, v) => cc(ch, 0x12, v),
        MIDIEvent::GeneralPurpose3LSB(ch, v) => cc(ch, 0x32, v),
        MIDIEvent::GeneralPurpose4(ch, v) => cc(ch, 0x13, v),
        MIDIEvent::GeneralPurpose4LSB(ch, v) => cc(ch, 0x33, v),
        MIDIEvent::GeneralPurpose5(ch, v) => cc(ch, 0x50, v),
        MIDIEvent::GeneralPurpose6(ch, v) => cc(ch, 0x51, v),
        MIDIEvent::GeneralPurpose7(ch, v) => cc(ch, 0x52, v),
        MIDIEvent::GeneralPurpose8(ch, v) => cc(ch, 0x53, v),
        MIDIEvent::EffectsLevel(ch, v) => cc(ch, 0x5b, v),
        MIDIEvent::TremuloLevel(ch, v) => cc(ch, 0x5c, v),
        MIDIEvent::ChorusLevel(ch, v) => cc(ch, 0x5d, v),
        MIDIEvent::CelesteLevel(ch, v) => cc(ch, 0x5e, v),
        MIDIEvent::PhaserLevel(ch, v) => cc(ch, 0x5f, v),
        MIDIEvent::DataIncrement(ch) => cc(ch, 0x60, 0x00),
        MIDIEvent::DataDecrement(ch) => cc(ch, 0x61, 0x00),
        MIDIEvent::NonRegisteredParameterNumberLSB(ch, v) => cc(ch, 0x62, v),
        MIDIEvent::NonRegisteredParameterNumber(ch, v) => cc(ch, 0x63, v),
        MIDIEvent::RegisteredParameterNumberLSB(ch, v) => cc(ch, 0x64, v),
        MIDIEvent::RegisteredParameterNumber(ch, v) => cc(ch, 0x65, v),
        MIDIEvent::AllSoundOff(ch) => cc(ch, 0x78, 0x00),
        MIDIEvent::AllControllersOff(ch) => cc(ch, 0x79, 0x00),
        MIDIEvent::LocalControl(ch, v) => cc(ch, 0x7a, v),
        MIDIEvent::AllNotesOff(ch) => cc(ch, 0x7b, 0x00),
        MIDIEvent::OmniOff(ch) => cc(ch, 0x7c, 0x00),
        MIDIEvent::OmniOn(ch) => cc(ch, 0x7d, 0x00),
        MIDIEvent::MonophonicOperation(ch, v) => cc(ch, 0x7e, v),
        MIDIEvent::PolyphonicOperation(ch) => cc(ch, 0x7f, 0x00),
        MIDIEvent::TimeCode(r, h, m, s, f) => seq![
            0xf1u8,
            ((r & 0x03) * 0x20 + (h & 0x1f)) as u8,
            m & 0x3f,
            s & 0x3f,
            f & 0x1f,
        ],
    }
}

/// Small facts about masked bytes, used to discharge overflow checks.
pub proof fn lemma_byte_masks(b: u8)
    ensures
        b & 0x7f < 0x80,
        b & 0x0f < 0x10,
        b & 0x3f < 0x40,
        b & 0x1f < 0x20,
        b & 0x07 < 0x08,
        b & 0x03 < 0x04,
{
    assert(b & 0x7f < 0x80) by (bit_vector);
    assert(b & 0x0f < 0x10) by (bit_vector);
    assert(b & 0x3f < 0x40) by (bit_vector);
    assert(b & 0x1f < 0x20) by (bit_vector);
    assert(b & 0x07 < 0x08) by (bit_vector);
    assert(b & 0x03 < 0x04) by (bit_vector);
}

proof fn lemma_u16_low14(w: u16)
    ensures
        w & 0x3fff < 0x4000,
{
    assert(w & 0x3fff < 0x4000) by (bit_vector);
}

fn copy_range(src: &Vec<u8>, from: usize, to: usize) -> (r: Vec<u8>)
    requires
        from <= to <= src@.len(),
    ensures
        r@ == src@.subrange(from as int, to as int),
{
    let mut out: Vec<u8> = Vec::new();
    let mut i: usize = from;
    proof {
        assert(src@.subrange(from as int, from as int) =~= Seq::<u8>::empty());
    }
    while i < to
        invariant
            from <= i <= to <= src@.len(),
            out@ == src@.subrange(from as int, i as int),
        decreases to - i,
    {
        out.push(src[i]);
        i = i + 1;
        proof {
            assert(src@.subrange(from as int, i as int) =~= src@.subrange(
                from as int,
                i - 1,
            ).push(src@[i - 1]));
        }
    }
    out
}

/// Copy the byte range `[from, to)` out of `src`.
pub fn bytes_of_range(src: &Vec<u8>, from: usize, to: usize) -> (r: Vec<u8>)
    requires
        from <= to <= src@.len(),
    ensures
        r@ == src@.subrange(from as int, to as int),
{
    copy_range(src, from, to)
}

fn chan2_vec(status: u8, ch: u8, d1: u8, d2: u8) -> (r: Vec<u8>)
    requires
        status == 0x80 || status == 0x90 || status == 0xa0 || status == 0xb0,
    ensures
        r@ == chan2(status, ch, d1, d2),
{
    proof {
        lemma_byte_masks(ch);
    }
    let mut out: Vec<u8> = Vec::new();
    out.push(status + (ch & 0x0f));
    out.push(d1 & 0x7f);
    out.push(d2 & 0x7f);
    proof {
        assert(out@ =~= chan2(status, ch, d1, d2));
    }
    out
}

fn chan1_vec(status: u8, ch: u8, d1: u8) -> (r: Vec<u8>)
    requires
        status == 0xc0 || status == 0xd0,
    ensures
        r@ == chan1(status, ch, d1),
{
    proof {
        lemma_byte_masks(ch);
    }
    let mut out: Vec<u8> = Vec::new();
    out.push(status + (ch & 0x0f));
    out.push(d1 & 0x7f);
    proof {
        assert(out@ =~= chan1(status, ch, d1));
    }
    out
}

fn cc_vec(ch: u8, num: u8, val: u8) -> (r: Vec<u8>)
    ensures
        r@ == cc(ch, num, val),
{
    chan2_vec(0xb0, ch, num, val)
}

fn meta_text_vec(tag: u8, s: &String) -> (r: Vec<u8>)
    ensures
        r@ == meta_bytes(tag, encode_utf8(s@)),
{
    let mut out: Vec<u8> = Vec::new();
    out.push(0xff);
    out.push(tag);
    let payload = s.as_str().as_bytes_vec();
    let mut lenb = crate::varlen::to_variable_length_bytes(payload.len());
    out.append(&mut lenb);
    let mut body = payload;
    out.append(&mut body);
    proof {
        assert(out@ =~= meta_bytes(tag, encode_utf8(s@)));
    }
    out
}

impl MIDIEvent {
    /// Serialize this event to its wire bytes.
    pub fn as_bytes(&self) -> (r: Vec<u8>)
        ensures
            r@ == event_bytes(*self),
    {
        match self {
            MIDIEvent::SequenceNumber(n) => {
                let mut out: Vec<u8> = Vec::new();
                out.push(0xff);
                out.push(0x00);
                out.push(0x02);
                out.push((*n / 0x100) as u8);
                out.push((*n % 0x100) as u8);
                proof {
                    assert(out@ =~= event_bytes(*self));
                }
                out
            },
            MIDIEvent::Text(s) => {
                let out = meta_text_vec(0x01, s);
                out
            },
            MIDIEvent::CopyRightNotice(s) => meta_text_vec(0x02, s),
            MIDIEvent::TrackName(s) => meta_text_vec(0x03, s),
            MIDIEvent::InstrumentName(s) => meta_text_vec(0x04, s),
            MIDIEvent::Lyric(s) => meta_text_vec(0x05, s),
            MIDIEvent::Marker(s) => meta_text_vec(0x06, s),
            MIDIEvent::CuePoint(s) => meta_text_vec(0x07, s),
            MIDIEvent::EndOfTrack => {
                let mut out: Vec<u8> = Vec::new();
                out.push(0xff);
                out.push(0x2f);
                out.push(0x00);
                proof {
                    assert(out@ =~= event_bytes(*self));
                }
                out
            },
            MIDIEvent::ChannelPrefix(ch) => {
                let mut out: Vec<u8> = Vec::new();
                out.push(0xff);
                out.push(0x20);
                out.push(0x01);
                out.push(*ch);
                proof {
                    assert(out@ =~= event_bytes(*self));
                }
                out
            },
            MIDIEvent::SetTempo(t) => {
                let mut out: Vec<u8> = Vec::new();
                out.push(0xff);
                out.push(0x51);
                out.push(0x03);
                out.push(((*t / 0x10000) % 0x100) as u8);
                out.push(((*t / 0x100) % 0x100) as u8);
                out.push((*t % 0x100) as u8);
                proof {
                    assert(out@ =~= event_bytes(*self));
                }
                out
            },
            MIDIEvent::SMPTEOffset(h, m, s, ff, fr) => {
                let mut out: Vec<u8> = Vec::new();
                out.push(0xff);
                out.push(0x54);
                out.push(0x05);
                out.push(*h);
                out.push(*m);
                out.push(*s);
                out.push(*ff);
                out.push(*fr);
                proof {
                    assert(out@ =~= event_bytes(*self));
                }
                out
            },
            MIDIEvent::TimeSignature(n, d, c, t) => {
                let mut out: Vec<u8> = Vec::new();
                out.push(0xff);
                out.push(0x58);
                out.push(0x04);
                out.push(*n);
                out.push(*d);
                out.push(*c);
                out.push(*t);
                proof {
                    assert(out@ =~= event_bytes(*self));
                }
                out
            },
            MIDIEvent::KeySignature(k) => {
                let msf = crate::keysig::get_mi_sf(k);
                let mut out: Vec<u8> = Vec::new();
                out.push(0xff);
                out.push(0x59);
                out.push(0x02);
                out.push(msf.1);
                out.push(msf.0);
                proof {
                    assert(out@ =~= event_bytes(*self));
                }
                out
            },
            MIDIEvent::SequencerSpecific(d) => {
                let mut out: Vec<u8> = Vec::new();
                out.push(0xff);
                out.push(0x7f);
                let mut lenb = crate::varlen::to_variable_length_bytes(d.len());
                out.append(&mut lenb);
                let mut body = copy_range(d, 0, d.len());
                out.append(&mut body);
                proof {
                    assert(d@.subrange(0, d@.len() as int) =~= d@);
                    assert(out@ =~= event_bytes(*self));
                }
                out
            },
            MIDIEvent::NoteOn(ch, n, v) => chan2_vec(0x90, *ch, *n, *v),
            MIDIEvent::NoteOff(ch, n, v) => chan2_vec(0x80, *ch, *n, *v),
            MIDIEvent::AfterTouch(ch, n, v) => chan2_vec(0xa0, *ch, *n, *v),
            MIDIEvent::ControlChange(ch, num, v) => cc_vec(*ch, *num, *v),
            MIDIEvent::ProgramChange(ch, p) => chan1_vec(0xc0, *ch, *p),
            MIDIEvent::ChannelPressure(ch, p) => chan1_vec(0xd0, *ch, *p),
            MIDIEvent::PitchWheelChange(ch, w) => {
                proof {
                    lemma_byte_masks(*ch);
                    lemma_u16_low14(*w);
                }
                let masked = *w & 0x3fff;
                let mut out: Vec<u8> = Vec::new();
                out.push(0xe0 + (*ch & 0x0f));
                out.push((masked % 0x80) as u8);
                out.push((masked / 0x80) as u8);
                proof {
                    assert(out@ =~= event_bytes(*self));
                }
                out
            },
            MIDIEvent::SystemExclusive(d) => {
                let mut out: Vec<u8> = Vec::new();
                out.push(0xf0);
                let mut body = copy_range(d, 0, d.len());
                out.append(&mut body);
                out.push(0xf7);
                proof {
                    assert(d@.subrange(0, d@.len() as int) =~= d@);
                    assert(out@ =~= event_bytes(*self));
                }
                out
            },
            MIDIEvent::MTCQuarterFrame(t, v) => {
                proof {
                    lemma_byte_masks(*t);
                    lemma_byte_masks(*v);
                }
                let mut out: Vec<u8> = Vec::new();
                out.push(0xf1);
                out.push((*t & 0x07) * 0x10 + (*v & 0x0f));
                proof {
                    assert(out@ =~= event_bytes(*self));
                }
                out
            },
            MIDIEvent::SongPositionPointer(b) => {
                let mut out: Vec<u8> = Vec::new();
                out.push(0xf2);
                out.push((*b % 0x80) as u8);
                out.push(((*b / 0x80) % 0x80) as u8);
                proof {
                    assert(out@ =~= event_bytes(*self));
                }
                out
            },
            MIDIEvent::SongSelect(s) => {
                let mut out: Vec<u8> = Vec::new();
                out.push(0xf3);
                out.push(*s & 0x7f);
                proof {
                    assert(out@ =~= event_bytes(*self));
                }
                out
            },
            MIDIEvent::TuneRequest => single_byte(0xf6, self),
            MIDIEvent::MIDIClock => single_byte(0xf8, self),
            MIDIEvent::MIDIStart => single_byte(0xfa, self),
            MIDIEvent::MIDIContinue => single_byte(0xfb, self),
            MIDIEvent::MIDIStop => single_byte(0xfc, self),
            MIDIEvent::ActiveSense => single_byte(0xfe, self),
            MIDIEvent::Reset => single_byte(0xff, self),
            MIDIEvent::BankSelect(ch, v) => cc_vec(*ch, 0x00, *v),
            MIDIEvent::BankSelectLSB(ch, v) => cc_vec(*ch, 0x20, *v),
            MIDIEvent::ModulationWheel(ch, v) => cc_vec(*ch, 0x01, *v),
            MIDIEvent::ModulationWheelLSB(ch, v) => cc_vec(*ch, 0x21, *v),
            MIDIEvent::BreathController(ch, v) => cc_vec(*ch, 0x02, *v),
            MIDIEvent::BreathControllerLSB(ch, v) => cc_vec(*ch, 0x22, *v),
            MIDIEvent::FootPedal(ch, v) => cc_vec(*ch, 0x04, *v),
            MIDIEvent::FootPedalLSB(ch, v) => cc_vec(*ch, 0x24, *v),
            MIDIEvent::PortamentoTime(ch, v) => cc_vec(*ch, 0x05, *v),
            MIDIEvent::PortamentoTimeLSB(ch, v) => cc_vec(*ch, 0x25, *v),
            MIDIEvent::DataEntry(ch, v) => cc_vec(*ch, 0x06, *v),
            MIDIEvent::DataEntryLSB(ch, v) => cc_vec(*ch, 0x26, *v),
            MIDIEvent::Volume(ch, v) => cc_vec(*ch, 0x07, *v),
            MIDIEvent::VolumeLSB(ch, v) => cc_vec(*ch, 0x27, *v),
            MIDIEvent::Balance(ch, v) => cc_vec(*ch, 0x08, *v),
            MIDIEvent::BalanceLSB(ch, v) => cc_vec(*ch, 0x28, *v),
            MIDIEvent::Pan(ch, v) => cc_vec(*ch, 0x0a, *v),
            MIDIEvent::PanLSB(ch, v) => cc_vec(*ch, 0x2a, *v),
            MIDIEvent::Expression(ch, v) => cc_vec(*ch, 0x0b, *v),
            MIDIEvent::ExpressionLSB(ch, v) => cc_vec(*ch, 0x2b, *v),
            MIDIEvent::EffectControl1(ch, v) => cc_vec(*ch, 0x0c, *v),
            MIDIEvent::EffectControl1LSB(ch, v) => cc_vec(*ch, 0x2c, *v),
            MIDIEvent::EffectControl2(ch, v) => cc_vec(*ch, 0x0d, *v),
            MIDIEvent::EffectControl2LSB(ch, v) => cc_vec(*ch, 0x2d, *v),
            MIDIEvent::HoldPedal(ch, v) => cc_vec(*ch, 0x40, *v),
            MIDIEvent::Portamento(ch, v) => cc_vec(*ch, 0x41, *v),
            MIDIEvent::Sustenuto(ch, v) => cc_vec(*ch, 0x42, *v),
            MIDIEvent::SoftPedal(ch, v) => cc_vec(*ch, 0x43, *v),
            MIDIEvent::Legato(ch, v) => cc_vec(*ch, 0x44, *v),
            MIDIEvent::Hold2Pedal(ch, v) => cc_vec(*ch, 0x45, *v),
            MIDIEvent::SoundVariation(ch, v) => cc_vec(*ch, 0x46, *v),
            MIDIEvent::SoundTimbre(ch, v) => cc_vec(*ch, 0x47, *v),
            MIDIEvent::SoundReleaseTime(ch, v) => cc_vec(*ch, 0x48, *v),
            MIDIEvent::SoundAttack(ch, v) => cc_vec(*ch, 0x49, *v),
            MIDIEvent::SoundBrightness(ch, v) => cc_vec(*ch, 0x4a, *v),
            MIDIEvent::SoundControl1(ch, v) => cc_vec(*ch, 0x4b, *v),
            MIDIEvent::SoundControl2(ch, v) => cc_vec(*ch, 0x4c, *v),
            MIDIEvent::SoundControl3(ch, v) => cc_vec(*ch, 0x4d, *v),
            MIDIEvent::SoundControl4(ch, v) => cc_vec(*ch, 0x4e, *v),
            MIDIEvent::SoundControl5(ch, v) => cc_vec(*ch, 0x4f, *v),
            MIDIEvent::GeneralPurpose1(ch, v) => cc_vec(*ch, 0x10, *v),
            MIDIEvent::GeneralPurpose1LSB(ch, v) => cc_vec(*ch, 0x30, *v),
            MIDIEvent::GeneralPurpose2(ch, v) => cc_vec(*ch, 0x11, *v),
            MIDIEvent::GeneralPurpose2LSB(ch, v) => cc_vec(*ch, 0x31, *v),
            MIDIEvent::GeneralPurpose3(ch, v) => cc_vec(*ch, 0x12, *v),
            MIDIEvent::GeneralPurpose3LSB(ch, v) => cc_vec(*ch, 0x32, *v),
            MIDIEvent::GeneralPurpose4(ch, v) => cc_vec(*ch, 0x13, *v),
            MIDIEvent::GeneralPurpose4LSB(ch, v) => cc_vec(*ch, 0x33, *v),
            MIDIEvent::GeneralPurpose5(ch, v) => cc_vec(*ch, 0x50, *v),
            MIDIEvent::GeneralPurpose6(ch, v) => cc_vec(*ch, 0x51, *v),
            MIDIEvent::GeneralPurpose7(ch, v) => cc_vec(*ch, 0x52, *v),
            MIDIEvent::GeneralPurpose8(ch, v) => cc_vec(*ch, 0x53, *v),
            MIDIEvent::EffectsLevel(ch, v) => cc_vec(*ch, 0x5b, *v),
            MIDIEvent::TremuloLevel(ch, v) => cc_vec(*ch, 0x5c, *v),
            MIDIEvent::ChorusLevel(ch, v) => cc_vec(*ch, 0x5d, *v),
            MIDIEvent::CelesteLevel(ch, v) => cc_vec(*ch, 0x5e, *v),
            MIDIEvent::PhaserLevel(ch, v) => cc_vec(*ch, 0x5f, *v),
            MIDIEvent::DataIncrement(ch) => cc_vec(*ch, 0x60, 0x00),
            MIDIEvent::DataDecrement(ch) => cc_vec(*ch, 0x61, 0x00),
            MIDIEvent::NonRegisteredParameterNumberLSB(ch, v) => cc_vec(*ch, 0x62, *v),
            MIDIEvent::NonRegisteredParameterNumber(ch, v) => cc_vec(*ch, 0x63, *v),
            MIDIEvent::RegisteredParameterNumberLSB(ch, v) => cc_vec(*ch, 0x64, *v),
            MIDIEvent::RegisteredParameterNumber(ch, v) => cc_vec(*ch, 0x65, *v),
            MIDIEvent::AllSoundOff(ch) => cc_vec(*ch, 0x78, 0x00),
            MIDIEvent::AllControllersOff(ch) => cc_vec(*ch, 0x79, 0x00),
            MIDIEvent::LocalControl(ch, v) => cc_vec(*ch, 0x7a, *v),
            MIDIEvent::AllNotesOff(ch) => cc_vec(*ch, 0x7b, 0x00),
            MIDIEvent::OmniOff(ch) => cc_vec(*ch, 0x7c, 0x00),
            MIDIEvent::OmniOn(ch) => cc_vec(*ch, 0x7d, 0x00),
            MIDIEvent::MonophonicOperation(ch, v) => cc_vec(*ch, 0x7e, *v),
            MIDIEvent::PolyphonicOperation(ch) => cc_vec(*ch, 0x7f, 0x00),
            MIDIEvent::TimeCode(r, h, m, s, f) => {
                proof {
                    lemma_byte_masks(*r);
                    lemma_byte_masks(*h);
                    lemma_byte_masks(*m);
                    lemma_byte_masks(*s);
                    lemma_byte_masks(*f);
                }
                let mut out: Vec<u8> = Vec::new();
                out.push(0xf1);
                out.push((*r & 0x03) * 0x20 + (*h & 0x1f));
                out.push(*m & 0x3f);
                out.push(*s & 0x3f);
                out.push(*f & 0x1f);
                proof {
                    assert(out@ =~= event_bytes(*self));
                }
                out
            },
        }
    }
}

/// Clamp a microseconds-per-quarter-note value into the 24-bit range the
/// tempo meta event carries; zero clamps up to one.
pub fn clamp_uspqn(uspqn: u64) -> (r: u32)
    ensures
        r == (if uspqn < 1 {
            1u32
        } else if uspqn > 0xffffff {
            0xffffffu32
        } else {
            uspqn as u32
        }),
{
    if uspqn < 1 {
        1
    } else if uspqn > 0xffffff {
        0xffffff
    } else {
        uspqn as u32
    }
}

fn single_byte(b: u8, e: &MIDIEvent) -> (r: Vec<u8>)
    requires
        event_bytes(*e) == seq![b],
    ensures
        r@ == event_bytes(*e),
{
    let mut out: Vec<u8> = Vec::new();
    out.push(b);
    proof {
        assert(out@ =~= seq![b]);
    }
    out
}

} // verus!
