//! The live-input decoder: bytes polled from a device are buffered in an
//! instance's state and decoded one event at a time. In this context the
//! lead byte 0xFF is a bare reset message, not a meta-event introducer, and
//! there is no running status: a data byte in lead position is discarded.

use crate::event::MIDIEvent;
use crate::parse::{chan_event, chan_event_from, sysex_end};
use vstd::prelude::*;

verus! {

/// What the head of a live byte buffer holds: a complete event spanning
/// `used` bytes, a byte to discard, or the start of a message whose rest has
/// not arrived yet.
pub ghost enum LiveShape {
    Event { used: int },
    Skip { used: int },
    Pending,
}

/// The outcome of reading one live event from the head of `bytes`.
pub open spec fn live_shape(bytes: Seq<u8>) -> LiveShape {
    if bytes.len() == 0 {
        LiveShape::Pending
    } else {
        let b0 = bytes[0];
        if b0 < 0x80 {
            LiveShape::Skip { used: 1 }
        } else if b0 < 0xf0 {
            let cnt = crate::parse::chan_data_count(b0);
            if 1 + cnt <= bytes.len() {
                LiveShape::Event { used: 1 + cnt }
            } else {
                LiveShape::Pending
            }
        } else if b0 == 0xf0 {
            if sysex_end(bytes, 1) >= 0 {
                LiveShape::Event { used: sysex_end(bytes, 1) + 1 }
            } else {
                LiveShape::Pending
            }
        } else if b0 == 0xf1 {
            if bytes.len() >= 5 {
                LiveShape::Event { used: 5 }
            } else {
                LiveShape::Pending
            }
        } else if b0 == 0xf2 {
            if bytes.len() >= 3 {
                LiveShape::Event { used: 3 }
            } else {
                LiveShape::Pending
            }
        } else if b0 == 0xf3 {
            if bytes.len() >= 2 {
                LiveShape::Event { used: 2 }
            } else {
                LiveShape::Pending
            }
        } else if b0 == 0xf7 {
            if bytes.len() >= 2 && 2 + bytes[1] <= bytes.len() {
                LiveShape::Event { used: 2 + bytes[1] }
            } else {
                LiveShape::Pending
            }
        } else if b0 == 0xf6 || b0 == 0xf8 || b0 == 0xfa || b0 == 0xfb || b0 == 0xfc || b0
            == 0xfe || b0 == 0xff {
            LiveShape::Event { used: 1 }
        } else {
            // 0xF4, 0xF5, 0xF9, 0xFD: undefined, discarded.
            LiveShape::Skip { used: 1 }
        }
    }
}

/// Relates a decoded live event to the bytes it came from.
pub open spec fn live_event_from(bytes: Seq<u8>, e: MIDIEvent) -> bool {
    let b0 = bytes[0];
    if 0x80 <= b0 < 0xf0 {
        e == chan_event(
            b0,
            bytes[1],
            if crate::parse::chan_data_count(b0) == 2 {
                bytes[2]
            } else {
                0
            },
        )
    } else if b0 == 0xf0 {
        &&& e matches MIDIEvent::SystemExclusive(d)
        &&& d@ == bytes.subrange(1, sysex_end(bytes, 1))
    } else if b0 == 0xf1 {
        e == MIDIEvent::TimeCode(
            (bytes[1] & 0x60) / 0x20,
            bytes[1] & 0x1f,
            bytes[2] & 0x3f,
            bytes[3] & 0x3f,
            bytes[4] & 0x1f,
        )
    } else if b0 == 0xf2 {
        e == MIDIEvent::SongPositionPointer(
            (((bytes[2] & 0x7f) as u16) * 0x80 + ((bytes[1] & 0x7f) as u16)) as u16,
        )
    } else if b0 == 0xf3 {
        e == MIDIEvent::SongSelect(bytes[1] & 0x7f)
    } else if b0 == 0xf7 {
        &&& e matches MIDIEvent::SystemExclusive(d)
        &&& d@ == bytes.subrange(2, 2 + bytes[1])
    } else if b0 == 0xf6 {
        e == MIDIEvent::TuneRequest
    } else if b0 == 0xf8 {
        e == MIDIEvent::MIDIClock
    } else if b0 == 0xfa {
        e == MIDIEvent::MIDIStart
    } else if b0 == 0xfb {
        e == MIDIEvent::MIDIContinue
    } else if b0 == 0xfc {
        e == MIDIEvent::MIDIStop
    } else if b0 == 0xfe {
        e == MIDIEvent::ActiveSense
    } else if b0 == 0xff {
        e == MIDIEvent::Reset
    } else {
        false
    }
}

/// State carried across polls of one live input instance: the bytes that
/// have arrived and are not yet decoded.
pub struct InstanceData {
    buffer: Vec<u8>,
}

impl InstanceData {
    /// The buffered bytes, oldest first.
    pub closed spec fn pending(&self) -> Seq<u8> {
        self.buffer@
    }

    /// A fresh instance with nothing buffered.
    pub fn new() -> (r: InstanceData)
        ensures
            r.pending() == Seq::<u8>::empty(),
    {
        InstanceData { buffer: Vec::new() }
    }

    /// Hand one polled byte to the decoder.
    pub fn feed(&mut self, byte: u8)
        ensures
            final(self).pending() == old(self).pending().push(byte),
    {
        self.buffer.push(byte);
    }

    /// How many bytes wait undecoded.
    pub fn pending_len(&self) -> (r: usize)
        ensures
            r == self.pending().len(),
    {
        self.buffer.len()
    }

    /// Decode one event off the buffer's head. A data byte or an undefined
    /// status byte in lead position is discarded; an incomplete message
    /// leaves the buffer untouched until more bytes arrive.
    pub fn poll_event(&mut self) -> (r: Option<MIDIEvent>)
        ensures
            match live_shape(old(self).pending()) {
                LiveShape::Event { used } => {
                    &&& r matches Some(e) && live_event_from(old(self).pending(), e)
                    &&& final(self).pending() == old(self).pending().skip(used)
                },
                LiveShape::Skip { used } => {
                    &&& r is None
                    &&& final(self).pending() == old(self).pending().skip(used)
                },
                LiveShape::Pending => {
                    &&& r is None
                    &&& final(self).pending() == old(self).pending()
                },
            },
    {
        let ghost s = self.buffer@;
        let n = self.buffer.len();
        if n == 0 {
            return None;
        }
        let b0 = self.buffer[0];
        if b0 < 0x80 {
            self.consume(1);
            return None;
        }
        if b0 < 0xf0 {
            let cnt: usize = if b0 >= 0xc0 && b0 < 0xe0 {
                1
            } else {
                2
            };
            if 1 + cnt > n {
                return None;
            }
            let d1 = self.buffer[1];
            let d2 = if cnt == 2 {
                self.buffer[2]
            } else {
                0
            };
            let e = chan_event_from(b0, d1, d2);
            self.consume(1 + cnt);
            return Some(e);
        }
        if b0 == 0xf0 {
            let mut i: usize = 1;
            while i < n
                invariant
                    1 <= i <= n,
                    n == self.buffer@.len(),
                    s == self.buffer@,
                    s == old(self).pending(),
                    s[0] == 0xf0,
                    forall|j: int| 1 <= j < i ==> #[trigger] s[j] != 0xf7,
                decreases n - i,
            {
                if self.buffer[i] == 0xf7 {
                    proof {
                        crate::parse::lemma_sysex_end_at(s, 1, i as int);
                    }
                    let d = crate::event::bytes_of_range(&self.buffer, 1, i);
                    self.consume(i + 1);
                    return Some(MIDIEvent::SystemExclusive(d));
                }
                i = i + 1;
            }
            proof {
                crate::parse::lemma_sysex_end_none(s, 1);
            }
            return None;
        }
        if b0 == 0xf1 {
            if n < 5 {
                return None;
            }
            let b1 = self.buffer[1];
            let b2 = self.buffer[2];
            let b3 = self.buffer[3];
            let b4 = self.buffer[4];
            proof {
                assert((b1 & 0x60) / 0x20 < 4) by (bit_vector);
            }
            let e = MIDIEvent::TimeCode(
                (b1 & 0x60) / 0x20,
                b1 & 0x1f,
                b2 & 0x3f,
                b3 & 0x3f,
                b4 & 0x1f,
            );
            self.consume(5);
            return Some(e);
        }
        if b0 == 0xf2 {
            if n < 3 {
                return None;
            }
            let d1 = self.buffer[1];
            let d2 = self.buffer[2];
            proof {
                crate::event::lemma_byte_masks(d1);
                crate::event::lemma_byte_masks(d2);
            }
            let e = MIDIEvent::SongPositionPointer(
                ((d2 & 0x7f) as u16) * 0x80 + ((d1 & 0x7f) as u16),
            );
            self.consume(3);
            return Some(e);
        }
        if b0 == 0xf3 {
            if n < 2 {
                return None;
            }
            let d1 = self.buffer[1];
            let e = MIDIEvent::SongSelect(d1 & 0x7f);
            self.consume(2);
            return Some(e);
        }
        if b0 == 0xf7 {
            if n < 2 {
                return None;
            }
            let len = self.buffer[1] as usize;
            if 2 + len > n {
                return None;
            }
            let d = crate::event::bytes_of_range(&self.buffer, 2, 2 + len);
            self.consume(2 + len);
            return Some(MIDIEvent::SystemExclusive(d));
        }
        if b0 == 0xf6 || b0 == 0xf8 || b0 == 0xfa || b0 == 0xfb || b0 == 0xfc || b0 == 0xfe
            || b0 == 0xff {
            let e = if b0 == 0xf6 {
                MIDIEvent::TuneRequest
            } else if b0 == 0xf8 {
                MIDIEvent::MIDIClock
            } else if b0 == 0xfa {
                MIDIEvent::MIDIStart
            } else if b0 == 0xfb {
                MIDIEvent::MIDIContinue
            } else if b0 == 0xfc {
                MIDIEvent::MIDIStop
            } else if b0 == 0xfe {
                MIDIEvent::ActiveSense
            } else {
                MIDIEvent::Reset
            };
            self.consume(1);
            return Some(e);
        }
        // 0xF4, 0xF5, 0xF9, 0xFD
        self.consume(1);
        None
    }

    fn consume(&mut self, k: usize)
        requires
            k <= old(self).pending().len(),
        ensures
            final(self).pending() == old(self).pending().skip(k as int),
    {
        let rest = self.buffer.split_off(k);
        self.buffer = rest;
        proof {
            assert(self.buffer@ =~= old(self).pending().skip(k as int));
        }
    }
}

/// The event's fields are inside their wire ranges and its serialization is
/// a complete live-context message. Meta kinds have no live encoding, and
/// the quarter-frame message is excluded because the live lead byte 0xF1
/// introduces a full time code instead.
pub open spec fn wf_live_event(e: MIDIEvent) -> bool {
    match e {
        MIDIEvent::TimeCode(r, h, mi, s, f) => r < 0x04 && h < 0x20 && mi < 0x40 && s < 0x40
            && f < 0x20,
        MIDIEvent::Reset => true,
        MIDIEvent::SequenceNumber(_)
        | MIDIEvent::Text(_)
        | MIDIEvent::CopyRightNotice(_)
        | MIDIEvent::TrackName(_)
        | MIDIEvent::InstrumentName(_)
        | MIDIEvent::Lyric(_)
        | MIDIEvent::Marker(_)
        | MIDIEvent::CuePoint(_)
        | MIDIEvent::EndOfTrack
        | MIDIEvent::ChannelPrefix(_)
        | MIDIEvent::SetTempo(_)
        | MIDIEvent::SMPTEOffset(_, _, _, _, _)
        | MIDIEvent::TimeSignature(_, _, _, _)
        | MIDIEvent::KeySignature(_)
        | MIDIEvent::SequencerSpecific(_)
        | MIDIEvent::MTCQuarterFrame(_, _) => false,
        _ => crate::parse::wf_file_event(e),
    }
}

proof fn lemma_live_chan2(nib: u8, ch: u8, d1: u8, d2: u8)
    requires
        nib == 0x80 || nib == 0x90 || nib == 0xa0 || nib == 0xb0,
        ch < 0x10,
        d1 < 0x80,
        d2 < 0x80,
    ensures
        live_shape(crate::event::chan2(nib, ch, d1, d2)) == (LiveShape::Event { used: 3 }),
        live_event_from(
            crate::event::chan2(nib, ch, d1, d2),
            chan_event((nib + ch) as u8, d1, d2),
        ),
{
    crate::parse::lemma_mask_id(ch);
    crate::parse::lemma_mask_id(d1);
    crate::parse::lemma_mask_id(d2);
    crate::parse::lemma_status_byte(nib, ch);
    let bs = crate::event::chan2(nib, ch, d1, d2);
    assert(bs.len() == 3);
    assert(bs[0] == (nib + ch) as u8);
    assert(bs[1] == d1);
    assert(bs[2] == d2);
    assert(crate::parse::chan_data_count((nib + ch) as u8) == 2);
}

proof fn lemma_live_chan1(nib: u8, ch: u8, d1: u8)
    requires
        nib == 0xc0 || nib == 0xd0,
        ch < 0x10,
        d1 < 0x80,
    ensures
        live_shape(crate::event::chan1(nib, ch, d1)) == (LiveShape::Event { used: 2 }),
        live_event_from(crate::event::chan1(nib, ch, d1), chan_event((nib + ch) as u8, d1, 0)),
{
    crate::parse::lemma_mask_id(ch);
    crate::parse::lemma_mask_id(d1);
    crate::parse::lemma_status_byte(nib, ch);
    let bs = crate::event::chan1(nib, ch, d1);
    assert(bs.len() == 2);
    assert(bs[0] == (nib + ch) as u8);
    assert(bs[1] == d1);
    assert(crate::parse::chan_data_count((nib + ch) as u8) == 1);
}

proof fn lemma_live_cc_round_trip(e: MIDIEvent, ch: u8, num: u8, val: u8)
    requires
        ch < 0x10,
        num < 0x80,
        val < 0x80,
        crate::event::event_bytes(e) == crate::event::cc(ch, num, val),
        crate::parse::canonical_event(e) == crate::parse::controller_event(ch, num, val),
    ensures
        live_shape(crate::event::event_bytes(e)) == (LiveShape::Event {
            used: crate::event::event_bytes(e).len() as int,
        }),
        live_event_from(crate::event::event_bytes(e), crate::parse::canonical_event(e)),
{
    lemma_live_chan2(0xb0, ch, num, val);
    crate::parse::lemma_status_byte(0xb0, ch);
    crate::parse::lemma_mask_id(num);
    crate::parse::lemma_mask_id(val);
    assert(chan_event((0xb0 + ch) as u8, num, val) == crate::parse::controller_event(
        ch,
        num,
        val,
    ));
    assert(crate::event::cc(ch, num, val).len() == 3);
}

/// Law: a live-decodable event deserializes from its own serialization in
/// the live context too, up to the documented canonicalization (a note-on
/// with velocity zero reads back as a note-off).
#[verifier::rlimit(100)]
#[verifier::spinoff_prover]
pub proof fn lemma_live_round_trip(e: MIDIEvent)
    requires
        wf_live_event(e),
    ensures
        live_shape(crate::event::event_bytes(e)) == (LiveShape::Event {
            used: crate::event::event_bytes(e).len() as int,
        }),
        live_event_from(crate::event::event_bytes(e), crate::parse::canonical_event(e)),
{
    match e {
        MIDIEvent::NoteOn(c, n, v) => {
            lemma_live_chan2(0x90, c, n, v);
            crate::parse::lemma_status_byte(0x90, c);
            crate::parse::lemma_mask_id(n);
            crate::parse::lemma_mask_id(v);
            assert(chan_event((0x90 + c) as u8, n, v) == crate::parse::canonical_event(e));
        },
        MIDIEvent::NoteOff(c, n, v) => {
            lemma_live_chan2(0x80, c, n, v);
            crate::parse::lemma_status_byte(0x80, c);
            crate::parse::lemma_mask_id(n);
            crate::parse::lemma_mask_id(v);
            assert(chan_event((0x80 + c) as u8, n, v) == e);
        },
        MIDIEvent::AfterTouch(c, n, v) => {
            lemma_live_chan2(0xa0, c, n, v);
            crate::parse::lemma_status_byte(0xa0, c);
            crate::parse::lemma_mask_id(n);
            crate::parse::lemma_mask_id(v);
            assert(chan_event((0xa0 + c) as u8, n, v) == e);
        },
        MIDIEvent::ControlChange(c, num, v) => {
            lemma_live_cc_round_trip(e, c, num, v);
        },
        MIDIEvent::ProgramChange(c, p) => {
            lemma_live_chan1(0xc0, c, p);
            crate::parse::lemma_status_byte(0xc0, c);
            crate::parse::lemma_mask_id(p);
            assert(chan_event((0xc0 + c) as u8, p, 0) == e);
        },
        MIDIEvent::ChannelPressure(c, p) => {
            lemma_live_chan1(0xd0, c, p);
            crate::parse::lemma_status_byte(0xd0, c);
            crate::parse::lemma_mask_id(p);
            assert(chan_event((0xd0 + c) as u8, p, 0) == e);
        },
        MIDIEvent::PitchWheelChange(c, w) => {
            assert(w & 0x3fff == w) by (bit_vector)
                requires
                    w <= 0x3fff,
            ;
            crate::parse::lemma_status_byte(0xe0, c);
            crate::parse::lemma_mask_id(c);
            let bs = crate::event::event_bytes(e);
            let d1 = ((w & 0x3fff) % 0x80) as u8;
            let d2 = ((w & 0x3fff) / 0x80) as u8;
            crate::parse::lemma_mask_id(d1);
            crate::parse::lemma_mask_id(d2);
            assert(bs.len() == 3);
            assert(bs[0] == (0xe0 + c) as u8);
            assert(bs[1] == d1);
            assert(bs[2] == d2);
            assert(crate::parse::chan_data_count((0xe0 + c) as u8) == 2);
            vstd::arithmetic::div_mod::lemma_fundamental_div_mod(w as int, 0x80);
            assert(chan_event((0xe0 + c) as u8, d1, d2) == e);
        },
        MIDIEvent::SystemExclusive(d) => {
            crate::parse::lemma_sysex_parse(d@, 0);
            let bs = crate::event::event_bytes(e);
            assert(bs == seq![0xf0u8] + d@ + seq![0xf7u8]);
            assert(bs[0] == 0xf0);
        },
        MIDIEvent::SongPositionPointer(b) => {
            let bs = crate::event::event_bytes(e);
            let d1 = (b % 0x80) as u8;
            let d2 = ((b / 0x80) % 0x80) as u8;
            crate::parse::lemma_mask_id(d1);
            crate::parse::lemma_mask_id(d2);
            assert(bs.len() == 3);
            assert(bs[0] == 0xf2);
            assert(bs[1] == d1);
            assert(bs[2] == d2);
            vstd::arithmetic::div_mod::lemma_fundamental_div_mod(b as int, 0x80);
            vstd::arithmetic::div_mod::lemma_small_mod((b as int / 0x80) as nat, 0x80);
        },
        MIDIEvent::SongSelect(s) => {
            crate::parse::lemma_mask_id(s);
            let bs = crate::event::event_bytes(e);
            assert(bs.len() == 2);
            assert(bs[0] == 0xf3);
            assert(bs[1] == (s & 0x7f));
        },
        MIDIEvent::TuneRequest => {
            let bs = crate::event::event_bytes(e);
            assert(bs.len() == 1 && bs[0] == 0xf6);
        },
        MIDIEvent::MIDIClock => {
            let bs = crate::event::event_bytes(e);
            assert(bs.len() == 1 && bs[0] == 0xf8);
        },
        MIDIEvent::MIDIStart => {
            let bs = crate::event::event_bytes(e);
            assert(bs.len() == 1 && bs[0] == 0xfa);
        },
        MIDIEvent::MIDIContinue => {
            let bs = crate::event::event_bytes(e);
            assert(bs.len() == 1 && bs[0] == 0xfb);
        },
        MIDIEvent::MIDIStop => {
            let bs = crate::event::event_bytes(e);
            assert(bs.len() == 1 && bs[0] == 0xfc);
        },
        MIDIEvent::ActiveSense => {
            let bs = crate::event::event_bytes(e);
            assert(bs.len() == 1 && bs[0] == 0xfe);
        },
        MIDIEvent::Reset => {
            let bs = crate::event::event_bytes(e);
            assert(bs.len() == 1 && bs[0] == 0xff);
        },
        MIDIEvent::TimeCode(rc, h, mi, s, f) => {
            crate::parse::lemma_mask_id(rc);
            crate::parse::lemma_mask_id(h);
            crate::parse::lemma_mask_id(mi);
            crate::parse::lemma_mask_id(s);
            crate::parse::lemma_mask_id(f);
            let bs = crate::event::event_bytes(e);
            let b1 = ((rc & 0x03) * 0x20 + (h & 0x1f)) as u8;
            assert(bs.len() == 5);
            assert(bs[0] == 0xf1);
            assert(bs[1] == b1);
            assert(bs[2] == (mi & 0x3f));
            assert(bs[3] == (s & 0x3f));
            assert(bs[4] == (f & 0x1f));
            assert((b1 & 0x60) / 0x20 == rc && b1 & 0x1f == h) by (bit_vector)
                requires
                    rc < 0x04 && h < 0x20 && b1 == ((rc & 0x03) * 0x20 + (h & 0x1f)) as u8,
            ;
        },
        MIDIEvent::SequenceNumber(_) => {
        },
        MIDIEvent::Text(_) => {
        },
        MIDIEvent::CopyRightNotice(_) => {
        },
        MIDIEvent::TrackName(_) => {
        },
        MIDIEvent::InstrumentName(_) => {
        },
        MIDIEvent::Lyric(_) => {
        },
        MIDIEvent::Marker(_) => {
        },
        MIDIEvent::CuePoint(_) => {
        },
        MIDIEvent::EndOfTrack => {
        },
        MIDIEvent::ChannelPrefix(_) => {
        },
        MIDIEvent::SetTempo(_) => {
        },
        MIDIEvent::SMPTEOffset(_, _, _, _, _) => {
        },
        MIDIEvent::TimeSignature(_, _, _, _) => {
        },
        MIDIEvent::KeySignature(_) => {
        },
        MIDIEvent::SequencerSpecific(_) => {
        },
        MIDIEvent::MTCQuarterFrame(_, _) => {
        },
        MIDIEvent::BankSelect(c, v) => {
            lemma_live_cc_round_trip(e, c, 0x00, v);
        },
        MIDIEvent::BankSelectLSB(c, v) => {
            lemma_live_cc_round_trip(e, c, 0x20, v);
        },
        MIDIEvent::ModulationWheel(c, v) => {
            lemma_live_cc_round_trip(e, c, 0x01, v);
        },
        MIDIEvent::ModulationWheelLSB(c, v) => {
            lemma_live_cc_round_trip(e, c, 0x21, v);
        },
        MIDIEvent::BreathController(c, v) => {
            lemma_live_cc_round_trip(e, c, 0x02, v);
        },
        MIDIEvent::BreathControllerLSB(c, v) => {
            lemma_live_cc_round_trip(e, c, 0x22, v);
        },
        MIDIEvent::FootPedal(c, v) => {
            lemma_live_cc_round_trip(e, c, 0x04, v);
        },
        MIDIEvent::FootPedalLSB(c, v) => {
            lemma_live_cc_round_trip(e, c, 0x24, v);
        },
        MIDIEvent::PortamentoTime(c, v) => {
            lemma_live_cc_round_trip(e, c, 0x05, v);
        },
        MIDIEvent::PortamentoTimeLSB(c, v) => {
            lemma_live_cc_round_trip(e, c, 0x25, v);
        },
        MIDIEvent::DataEntry(c, v) => {
            lemma_live_cc_round_trip(e, c, 0x06, v);
        },
        MIDIEvent::DataEntryLSB(c, v) => {
            lemma_live_cc_round_trip(e, c, 0x26, v);
        },
        MIDIEvent::Volume(c, v) => {
            lemma_live_cc_round_trip(e, c, 0x07, v);
        },
        MIDIEvent::VolumeLSB(c, v) => {
            lemma_live_cc_round_trip(e, c, 0x27, v);
        },
        MIDIEvent::Balance(c, v) => {
            lemma_live_cc_round_trip(e, c, 0x08, v);
        },
        MIDIEvent::BalanceLSB(c, v) => {
            lemma_live_cc_round_trip(e, c, 0x28, v);
        },
        MIDIEvent::Pan(c, v) => {
            lemma_live_cc_round_trip(e, c, 0x0a, v);
        },
        MIDIEvent::PanLSB(c, v) => {
            lemma_live_cc_round_trip(e, c, 0x2a, v);
        },
        MIDIEvent::Expression(c, v) => {
            lemma_live_cc_round_trip(e, c, 0x0b, v);
        },
        MIDIEvent::ExpressionLSB(c, v) => {
            lemma_live_cc_round_trip(e, c, 0x2b, v);
        },
        MIDIEvent::EffectControl1(c, v) => {
            lemma_live_cc_round_trip(e, c, 0x0c, v);
        },
        MIDIEvent::EffectControl1LSB(c, v) => {
            lemma_live_cc_round_trip(e, c, 0x2c, v);
        },
        MIDIEvent::EffectControl2(c, v) => {
            lemma_live_cc_round_trip(e, c, 0x0d, v);
        },
        MIDIEvent::EffectControl2LSB(c, v) => {
            lemma_live_cc_round_trip(e, c, 0x2d, v);
        },
        MIDIEvent::HoldPedal(c, v) => {
            lemma_live_cc_round_trip(e, c, 0x40, v);
        },
        MIDIEvent::Portamento(c, v) => {
            lemma_live_cc_round_trip(e, c, 0x41, v);
        },
        MIDIEvent::Sustenuto(c, v) => {
            lemma_live_cc_round_trip(e, c, 0x42, v);
        },
        MIDIEvent::SoftPedal(c, v) => {
            lemma_live_cc_round_trip(e, c, 0x43, v);
        },
        MIDIEvent::Legato(c, v) => {
            lemma_live_cc_round_trip(e, c, 0x44, v);
        },
        MIDIEvent::Hold2Pedal(c, v) => {
            lemma_live_cc_round_trip(e, c, 0x45, v);
        },
        MIDIEvent::SoundVariation(c, v) => {
            lemma_live_cc_round_trip(e, c, 0x46, v);
        },
        MIDIEvent::SoundTimbre(c, v) => {
            lemma_live_cc_round_trip(e, c, 0x47, v);
        },
        MIDIEvent::SoundReleaseTime(c, v) => {
            lemma_live_cc_round_trip(e, c, 0x48, v);
        },
        MIDIEvent::SoundAttack(c, v) => {
            lemma_live_cc_round_trip(e, c, 0x49, v);
        },
        MIDIEvent::SoundBrightness(c, v) => {
            lemma_live_cc_round_trip(e, c, 0x4a, v);
        },
        MIDIEvent::SoundControl1(c, v) => {
            lemma_live_cc_round_trip(e, c, 0x4b, v);
        },
        MIDIEvent::SoundControl2(c, v) => {
            lemma_live_cc_round_trip(e, c, 0x4c, v);
        },
        MIDIEvent::SoundControl3(c, v) => {
            lemma_live_cc_round_trip(e, c, 0x4d, v);
        },
        MIDIEvent::SoundControl4(c, v) => {
            lemma_live_cc_round_trip(e, c, 0x4e, v);
        },
        MIDIEvent::SoundControl5(c, v) => {
            lemma_live_cc_round_trip(e, c, 0x4f, v);
        },
        MIDIEvent::GeneralPurpose1(c, v) => {
            lemma_live_cc_round_trip(e, c, 0x10, v);
        },
        MIDIEvent::GeneralPurpose1LSB(c, v) => {
            lemma_live_cc_round_trip(e, c, 0x30, v);
        },
        MIDIEvent::GeneralPurpose2(c, v) => {
            lemma_live_cc_round_trip(e, c, 0x11, v);
        },
        MIDIEvent::GeneralPurpose2LSB(c, v) => {
            lemma_live_cc_round_trip(e, c, 0x31, v);
        },
        MIDIEvent::GeneralPurpose3(c, v) => {
            lemma_live_cc_round_trip(e, c, 0x12, v);
        },
        MIDIEvent::GeneralPurpose3LSB(c, v) => {
            lemma_live_cc_round_trip(e, c, 0x32, v);
        },
        MIDIEvent::GeneralPurpose4(c, v) => {
            lemma_live_cc_round_trip(e, c, 0x13, v);
        },
        MIDIEvent::GeneralPurpose4LSB(c, v) => {
            lemma_live_cc_round_trip(e, c, 0x33, v);
        },
        MIDIEvent::GeneralPurpose5(c, v) => {
            lemma_live_cc_round_trip(e, c, 0x50, v);
        },
        MIDIEvent::GeneralPurpose6(c, v) => {
            lemma_live_cc_round_trip(e, c, 0x51, v);
        },
        MIDIEvent::GeneralPurpose7(c, v) => {
            lemma_live_cc_round_trip(e, c, 0x52, v);
        },
        MIDIEvent::GeneralPurpose8(c, v) => {
            lemma_live_cc_round_trip(e, c, 0x53, v);
        },
        MIDIEvent::EffectsLevel(c, v) => {
            lemma_live_cc_round_trip(e, c, 0x5b, v);
        },
        MIDIEvent::TremuloLevel(c, v) => {
            lemma_live_cc_round_trip(e, c, 0x5c, v);
        },
        MIDIEvent::ChorusLevel(c, v) => {
            lemma_live_cc_round_trip(e, c, 0x5d, v);
        },
        MIDIEvent::CelesteLevel(c, v) => {
            lemma_live_cc_round_trip(e, c, 0x5e, v);
        },
        MIDIEvent::PhaserLevel(c, v) => {
            lemma_live_cc_round_trip(e, c, 0x5f, v);
        },
        MIDIEvent::DataIncrement(c) => {
            lemma_live_cc_round_trip(e, c, 0x60, 0x00);
        },
        MIDIEvent::DataDecrement(c) => {
            lemma_live_cc_round_trip(e, c, 0x61, 0x00);
        },
        MIDIEvent::NonRegisteredParameterNumberLSB(c, v) => {
            lemma_live_cc_round_trip(e, c, 0x62, v);
        },
        MIDIEvent::NonRegisteredParameterNumber(c, v) => {
            lemma_live_cc_round_trip(e, c, 0x63, v);
        },
        MIDIEvent::RegisteredParameterNumberLSB(c, v) => {
            lemma_live_cc_round_trip(e, c, 0x64, v);
        },
        MIDIEvent::RegisteredParameterNumber(c, v) => {
            lemma_live_cc_round_trip(e, c, 0x65, v);
        },
        MIDIEvent::AllSoundOff(c) => {
            lemma_live_cc_round_trip(e, c, 0x78, 0x00);
        },
        MIDIEvent::AllControllersOff(c) => {
            lemma_live_cc_round_trip(e, c, 0x79, 0x00);
        },
        MIDIEvent::LocalControl(c, v) => {
            lemma_live_cc_round_trip(e, c, 0x7a, v);
        },
        MIDIEvent::AllNotesOff(c) => {
            lemma_live_cc_round_trip(e, c, 0x7b, 0x00);
        },
        MIDIEvent::OmniOff(c) => {
            lemma_live_cc_round_trip(e, c, 0x7c, 0x00);
        },
        MIDIEvent::OmniOn(c) => {
            lemma_live_cc_round_trip(e, c, 0x7d, 0x00);
        },
        MIDIEvent::MonophonicOperation(c, v) => {
            lemma_live_cc_round_trip(e, c, 0x7e, v);
        },
        MIDIEvent::PolyphonicOperation(c) => {
            lemma_live_cc_round_trip(e, c, 0x7f, 0x00);
        },
    }
}

} // verus!
