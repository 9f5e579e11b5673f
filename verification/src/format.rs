//! The wire format, stated mathematically: a specification-level parser for
//! records, frames, datagrams and identifiers over byte sequences, and a
//! specification-level encoder for command frames. Every executable decode
//! or encode function of the crate is proved equal to these definitions.

use vstd::prelude::*;

use crate::protocol::{
    spec_cause_from_byte, spec_codec_from_byte, spec_count_width, spec_id_width,
    spec_is_telemetry, spec_priority_from_byte, AvlFrameView, Codec, DatagramView, DecodeError,
    EventGenerationCause, EventValueView, EventView, FrameView, GprsFrameView, RecordView,
};
use crate::spec_crc16;
use crate::trusted::timestamp_in_calendar;

verus! {

/// The outcome of parsing at a position: a value and the position one past
/// its last byte; a need for `need` more bytes than the sequence holds; or a
/// terminal content failure.
pub ghost enum Parsed<T> {
    Done { v: T, end: int },
    More { need: int },
    Fail { err: DecodeError },
}

/// Propagates a non-`Done` outcome to a parser of another value type.
pub open spec fn pass<T, U>(p: Parsed<T>) -> Parsed<U> {
    match p {
        Parsed::Done { .. } => arbitrary(),
        Parsed::More { need } => Parsed::More { need },
        Parsed::Fail { err } => Parsed::Fail { err },
    }
}

/// Prepends already-parsed elements to the outcome of parsing the rest of a
/// list.
pub open spec fn pres_append<T>(pre: Seq<T>, p: Parsed<Seq<T>>) -> Parsed<Seq<T>> {
    match p {
        Parsed::Done { v, end } => Parsed::Done { v: pre + v, end },
        m => pass(m),
    }
}

pub proof fn lemma_pres_append_assoc<T>(a: Seq<T>, b: Seq<T>, p: Parsed<Seq<T>>)
    ensures
        pres_append(a, pres_append(b, p)) == pres_append(a + b, p),
{
    match p {
        Parsed::Done { v, end } => {
            assert(a + (b + v) =~= (a + b) + v);
        },
        Parsed::More { need } => {
        },
        Parsed::Fail { err } => {
        },
    }
}

pub proof fn lemma_pres_append_empty<T>(a: Seq<T>, p: Parsed<Seq<T>>)
    requires
        p is Done,
        p->v =~= Seq::<T>::empty(),
    ensures
        pres_append(a, p) == (Parsed::Done { v: a, end: p->end }),
{
    assert(a + p->v =~= a);
}

pub proof fn lemma_map_values_push<A, B>(s: Seq<A>, f: spec_fn(A) -> B, x: A)
    ensures
        s.push(x).map_values(f) == s.map_values(f).push(f(x)),
{
    assert(s.push(x).map_values(f) =~= s.map_values(f).push(f(x)));
}

// ------------------------------------------------------------------
// Primitive big-endian readers
// ------------------------------------------------------------------

/// The big-endian 16-bit value at position `i`.
pub open spec fn be16_at(s: Seq<u8>, i: int) -> u16 {
    (s[i] * 0x100 + s[i + 1]) as u16
}

/// The big-endian 32-bit value at position `i`.
pub open spec fn be32_at(s: Seq<u8>, i: int) -> u32 {
    (s[i] * 0x1000000 + s[i + 1] * 0x10000 + s[i + 2] * 0x100 + s[i + 3]) as u32
}

/// The big-endian 64-bit value at position `i`.
pub open spec fn be64_at(s: Seq<u8>, i: int) -> u64 {
    (s[i] * 0x100000000000000 + s[i + 1] * 0x1000000000000 + s[i + 2] * 0x10000000000 + s[i + 3]
        * 0x100000000 + s[i + 4] * 0x1000000 + s[i + 5] * 0x10000 + s[i + 6] * 0x100 + s[i
        + 7]) as u64
}

pub open spec fn sp_u8(s: Seq<u8>, i: int) -> Parsed<u8> {
    if i + 1 <= s.len() {
        Parsed::Done { v: s[i], end: i + 1 }
    } else {
        Parsed::More { need: i + 1 - s.len() }
    }
}

pub open spec fn sp_be16(s: Seq<u8>, i: int) -> Parsed<u16> {
    if i + 2 <= s.len() {
        Parsed::Done { v: be16_at(s, i), end: i + 2 }
    } else {
        Parsed::More { need: i + 2 - s.len() }
    }
}

pub open spec fn sp_be32(s: Seq<u8>, i: int) -> Parsed<u32> {
    if i + 4 <= s.len() {
        Parsed::Done { v: be32_at(s, i), end: i + 4 }
    } else {
        Parsed::More { need: i + 4 - s.len() }
    }
}

pub open spec fn sp_be64(s: Seq<u8>, i: int) -> Parsed<u64> {
    if i + 8 <= s.len() {
        Parsed::Done { v: be64_at(s, i), end: i + 8 }
    } else {
        Parsed::More { need: i + 8 - s.len() }
    }
}

/// Reads an unsigned value of width `w` bytes (1 or 2), widened to 16 bits.
pub open spec fn sp_width(s: Seq<u8>, i: int, w: int) -> Parsed<u16> {
    if w == 1 {
        match sp_u8(s, i) {
            Parsed::Done { v, end } => Parsed::Done { v: v as u16, end },
            m => pass(m),
        }
    } else {
        sp_be16(s, i)
    }
}

/// Reads `n` raw bytes.
pub open spec fn sp_bytes(s: Seq<u8>, i: int, n: int) -> Parsed<Seq<u8>> {
    if i + n <= s.len() {
        Parsed::Done { v: s.subrange(i, i + n), end: i + n }
    } else {
        Parsed::More { need: i + n - s.len() }
    }
}

// ------------------------------------------------------------------
// Characters: the protocol's strings are single-byte characters
// ------------------------------------------------------------------

/// The character whose code point is the byte's value.
pub open spec fn char_of_byte(b: u8) -> char {
    (b as u32) as char
}

/// The byte whose value is the character's code point (meaningful for
/// characters with code points below 256).
pub open spec fn byte_of_char(c: char) -> u8 {
    (c as u32) as u8
}

pub open spec fn chars_of_bytes(bs: Seq<u8>) -> Seq<char> {
    bs.map_values(|b: u8| char_of_byte(b))
}

pub open spec fn bytes_of_chars(cs: Seq<char>) -> Seq<u8> {
    cs.map_values(|c: char| byte_of_char(c))
}

/// Whether every character of the sequence is ASCII.
pub open spec fn ascii_chars(cs: Seq<char>) -> bool {
    forall|i: int| 0 <= i < cs.len() ==> (cs[i] as u32) < 128
}

// ------------------------------------------------------------------
// Device identifier
// ------------------------------------------------------------------

/// The identifier: a 2-byte big-endian length, then that many single-byte
/// characters. Never a content failure: any byte is a valid character.
pub open spec fn sp_imei(s: Seq<u8>, i: int) -> Parsed<Seq<char>> {
    match sp_be16(s, i) {
        Parsed::Done { v: n, end: j } => match sp_bytes(s, j, n as int) {
            Parsed::Done { v: bs, end: e } => Parsed::Done { v: chars_of_bytes(bs), end: e },
            m => pass(m),
        },
        m => pass(m),
    }
}

// ------------------------------------------------------------------
// Records
// ------------------------------------------------------------------

/// The five fixed-order groups an event list is split into on the wire.
#[derive(Debug, PartialEq, Eq, Copy, Clone, Structural)]
pub enum EventValueKind {
    U8,
    U16,
    U32,
    U64,
    Variable,
}

/// One event value of the given kind. Variable-length values are themselves
/// length-prefixed with the codec's count width.
pub open spec fn sp_event_value(s: Seq<u8>, i: int, c: Codec, k: EventValueKind) -> Parsed<
    EventValueView,
> {
    match k {
        EventValueKind::U8 => match sp_u8(s, i) {
            Parsed::Done { v, end } => Parsed::Done { v: EventValueView::U8(v), end },
            m => pass(m),
        },
        EventValueKind::U16 => match sp_be16(s, i) {
            Parsed::Done { v, end } => Parsed::Done { v: EventValueView::U16(v), end },
            m => pass(m),
        },
        EventValueKind::U32 => match sp_be32(s, i) {
            Parsed::Done { v, end } => Parsed::Done { v: EventValueView::U32(v), end },
            m => pass(m),
        },
        EventValueKind::U64 => match sp_be64(s, i) {
            Parsed::Done { v, end } => Parsed::Done { v: EventValueView::U64(v), end },
            m => pass(m),
        },
        EventValueKind::Variable => match sp_width(s, i, spec_count_width(c)) {
            Parsed::Done { v: n, end: j } => match sp_bytes(s, j, n as int) {
                Parsed::Done { v: bs, end: e } => Parsed::Done {
                    v: EventValueView::Variable(bs),
                    end: e,
                },
                m => pass(m),
            },
            m => pass(m),
        },
    }
}

/// One event: an identifier of the codec's identifier width, then a value.
pub open spec fn sp_event(s: Seq<u8>, i: int, c: Codec, k: EventValueKind) -> Parsed<EventView> {
    match sp_width(s, i, spec_id_width(c)) {
        Parsed::Done { v: id, end: j } => match sp_event_value(s, j, c, k) {
            Parsed::Done { v: value, end } => Parsed::Done { v: EventView { id, value }, end },
            m => pass(m),
        },
        m => pass(m),
    }
}

/// `n` events of one kind, back to back.
pub open spec fn sp_events(s: Seq<u8>, i: int, c: Codec, k: EventValueKind, n: nat) -> Parsed<
    Seq<EventView>,
>
    decreases n,
{
    if n == 0 {
        Parsed::Done { v: Seq::empty(), end: i }
    } else {
        match sp_event(s, i, c, k) {
            Parsed::Done { v: ev, end: j } => match sp_events(s, j, c, k, (n - 1) as nat) {
                Parsed::Done { v: rest, end: e } => Parsed::Done { v: seq![ev] + rest, end: e },
                m => pass(m),
            },
            m => pass(m),
        }
    }
}

/// One event group: a count of the codec's count width, then that many
/// events of one kind.
pub open spec fn sp_event_group(s: Seq<u8>, i: int, c: Codec, k: EventValueKind) -> Parsed<
    Seq<EventView>,
> {
    match sp_width(s, i, spec_count_width(c)) {
        Parsed::Done { v: n, end: j } => sp_events(s, j, c, k, n as nat),
        m => pass(m),
    }
}

/// The event groups in their fixed kind order: all 1-byte values, then
/// 2-byte, 4-byte, 8-byte, and (extended codec only) variable-length.
pub open spec fn sp_io_groups(s: Seq<u8>, i: int, c: Codec) -> Parsed<Seq<EventView>> {
    match sp_event_group(s, i, c, EventValueKind::U8) {
        Parsed::Done { v: g1, end: i1 } => match sp_event_group(s, i1, c, EventValueKind::U16) {
            Parsed::Done { v: g2, end: i2 } => match sp_event_group(s, i2, c, EventValueKind::U32) {
                Parsed::Done { v: g4, end: i3 } => match sp_event_group(
                    s,
                    i3,
                    c,
                    EventValueKind::U64,
                ) {
                    Parsed::Done { v: g8, end: i4 } => if c == Codec::C8Ext {
                        match sp_event_group(s, i4, c, EventValueKind::Variable) {
                            Parsed::Done { v: gv, end: i5 } => Parsed::Done {
                                v: g1 + g2 + g4 + g8 + gv,
                                end: i5,
                            },
                            m => pass(m),
                        }
                    } else {
                        Parsed::Done { v: g1 + g2 + g4 + g8, end: i4 }
                    },
                    m => pass(m),
                },
                m => pass(m),
            },
            m => pass(m),
        },
        m => pass(m),
    }
}

/// The whole event list: a total count, the groups, and the check that the
/// group contents add up to the total.
pub open spec fn sp_io_all(s: Seq<u8>, i: int, c: Codec) -> Parsed<Seq<EventView>> {
    match sp_width(s, i, spec_count_width(c)) {
        Parsed::Done { v: total, end: j } => match sp_io_groups(s, j, c) {
            Parsed::Done { v: evs, end: e } => if evs.len() != total as int {
                Parsed::Fail { err: DecodeError::CountMismatch }
            } else {
                Parsed::Done { v: evs, end: e }
            },
            m => pass(m),
        },
        m => pass(m),
    }
}

/// The signed value a raw big-endian 32-bit coordinate denotes, under the
/// two's-complement convention: values with the sign bit set stand for
/// their value less 2^32.
pub open spec fn i32_of_be32(v: u32) -> i32 {
    if v < 0x80000000 {
        v as i32
    } else {
        (v - 0x100000000) as i32
    }
}

/// The fixed geography block: longitude, latitude, altitude, angle,
/// satellite count and speed — 15 bytes.
pub open spec fn sp_geo(s: Seq<u8>, i: int) -> Parsed<(i32, i32, u16, u16, u8, u16)> {
    match sp_be32(s, i) {
        Parsed::Done { v: lon, end: i1 } => match sp_be32(s, i1) {
            Parsed::Done { v: lat, end: i2 } => match sp_be16(s, i2) {
                Parsed::Done { v: alt, end: i3 } => match sp_be16(s, i3) {
                    Parsed::Done { v: ang, end: i4 } => match sp_u8(s, i4) {
                        Parsed::Done { v: sat, end: i5 } => match sp_be16(s, i5) {
                            Parsed::Done { v: spd, end: i6 } => Parsed::Done {
                                v: (i32_of_be32(lon), i32_of_be32(lat), alt, ang, sat, spd),
                                end: i6,
                            },
                            m => pass(m),
                        },
                        m => pass(m),
                    },
                    m => pass(m),
                },
                m => pass(m),
            },
            m => pass(m),
        },
        m => pass(m),
    }
}

/// The trigger event identifier, and the generation cause present only
/// under codec `C16`.
pub open spec fn sp_trigger(s: Seq<u8>, i: int, c: Codec) -> Parsed<
    (u16, Option<EventGenerationCause>),
> {
    match sp_width(s, i, spec_id_width(c)) {
        Parsed::Done { v: tid, end: j } => if c == Codec::C16 {
            match sp_u8(s, j) {
                Parsed::Done { v: gb, end: e } => match spec_cause_from_byte(gb) {
                    Option::None => Parsed::Fail { err: DecodeError::UnrecognizedEnumValue },
                    Option::Some(g) => Parsed::Done { v: (tid, Some(g)), end: e },
                },
                m => pass(m),
            }
        } else {
            Parsed::Done { v: (tid, None), end: j }
        },
        m => pass(m),
    }
}

/// One record under a telemetry codec, in wire order: timestamp (checked to
/// denote a calendar instant), priority, geography block, trigger, and the
/// event list. Coordinates are two's-complement signed 32-bit values.
#[verifier::opaque]
pub open spec fn sp_record(s: Seq<u8>, i: int, c: Codec) -> Parsed<RecordView> {
    match sp_be64(s, i) {
        Parsed::Done { v: ts, end: i1 } => if !timestamp_in_calendar(ts) {
            Parsed::Fail { err: DecodeError::InvalidTimestamp }
        } else {
            match sp_u8(s, i1) {
                Parsed::Done { v: pb, end: i2 } => match spec_priority_from_byte(pb) {
                    Option::None => Parsed::Fail { err: DecodeError::UnrecognizedEnumValue },
                    Option::Some(priority) => match sp_geo(s, i2) {
                        Parsed::Done { v: geo, end: i3 } => match sp_trigger(s, i3, c) {
                            Parsed::Done { v: trig, end: i4 } => match sp_io_all(s, i4, c) {
                                Parsed::Done { v: evs, end: e } => Parsed::Done {
                                    v: RecordView {
                                        timestamp: ts,
                                        priority,
                                        longitude: geo.0,
                                        latitude: geo.1,
                                        altitude: geo.2,
                                        angle: geo.3,
                                        satellites: geo.4,
                                        speed: geo.5,
                                        trigger_event_id: trig.0,
                                        generation_type: trig.1,
                                        io_events: evs,
                                    },
                                    end: e,
                                },
                                m => pass(m),
                            },
                            m => pass(m),
                        },
                        m => pass(m),
                    },
                },
                m => pass(m),
            }
        },
        m => pass(m),
    }
}

/// `n` records, back to back.
pub open spec fn sp_records(s: Seq<u8>, i: int, c: Codec, n: nat) -> Parsed<Seq<RecordView>>
    decreases n,
{
    if n == 0 {
        Parsed::Done { v: Seq::empty(), end: i }
    } else {
        match sp_record(s, i, c) {
            Parsed::Done { v: r, end: j } => match sp_records(s, j, c, (n - 1) as nat) {
                Parsed::Done { v: rest, end: e } => Parsed::Done { v: seq![r] + rest, end: e },
                m => pass(m),
            },
            m => pass(m),
        }
    }
}

// ------------------------------------------------------------------
// Frame payloads and frames
// ------------------------------------------------------------------

/// A parsed frame payload, before the checksum is attached.
pub ghost enum PayloadView {
    Telemetry { codec: Codec, records: Seq<RecordView> },
    Command { codec: Codec, responses: Seq<Seq<char>> },
}

/// One command response: a 4-byte length, then that many single-byte
/// characters.
pub open spec fn sp_response(s: Seq<u8>, i: int) -> Parsed<Seq<char>> {
    match sp_be32(s, i) {
        Parsed::Done { v: n, end: j } => match sp_bytes(s, j, n as int) {
            Parsed::Done { v: bs, end: e } => Parsed::Done { v: chars_of_bytes(bs), end: e },
            m => pass(m),
        },
        m => pass(m),
    }
}

/// `n` command responses, back to back.
pub open spec fn sp_responses(s: Seq<u8>, i: int, n: nat) -> Parsed<Seq<Seq<char>>>
    decreases n,
{
    if n == 0 {
        Parsed::Done { v: Seq::empty(), end: i }
    } else {
        match sp_response(s, i) {
            Parsed::Done { v: r, end: j } => match sp_responses(s, j, (n - 1) as nat) {
                Parsed::Done { v: rest, end: e } => Parsed::Done { v: seq![r] + rest, end: e },
                m => pass(m),
            },
            m => pass(m),
        }
    }
}

/// A frame payload: the codec byte, then the codec family's own shape.
///
/// Telemetry: a record count, the records, and a redundant trailing count
/// that must agree. Command (`C12` only): a response count, a type tag byte
/// (read, not validated), the responses, and a redundant trailing count that
/// must agree. The two command codecs without a payload shape are rejected
/// as unrecognized here.
pub open spec fn sp_payload(p: Seq<u8>) -> Parsed<PayloadView> {
    match sp_u8(p, 0) {
        Parsed::Done { v: cb, end: i1 } => match spec_codec_from_byte(cb) {
            Option::None => Parsed::Fail { err: DecodeError::UnrecognizedCodec },
            Option::Some(c) => if spec_is_telemetry(c) {
                match sp_u8(p, i1) {
                    Parsed::Done { v: n, end: i2 } => match sp_records(p, i2, c, n as nat) {
                        Parsed::Done { v: recs, end: e } => match sp_u8(p, e) {
                            Parsed::Done { v: t, end: e2 } => if t as int != recs.len() {
                                Parsed::Fail { err: DecodeError::CountMismatch }
                            } else {
                                Parsed::Done {
                                    v: PayloadView::Telemetry { codec: c, records: recs },
                                    end: e2,
                                }
                            },
                            m => pass(m),
                        },
                        m => pass(m),
                    },
                    m => pass(m),
                }
            } else if c == Codec::C12 {
                match sp_u8(p, i1) {
                    Parsed::Done { v: q, end: i2 } => match sp_u8(p, i2) {
                        Parsed::Done { v: _tag, end: i3 } => match sp_responses(p, i3, q as nat) {
                            Parsed::Done { v: rs, end: e } => match sp_u8(p, e) {
                                Parsed::Done { v: t, end: e2 } => if t as int != rs.len() {
                                    Parsed::Fail { err: DecodeError::CountMismatch }
                                } else {
                                    Parsed::Done {
                                        v: PayloadView::Command { codec: c, responses: rs },
                                        end: e2,
                                    }
                                },
                                m => pass(m),
                            },
                            m => pass(m),
                        },
                        m => pass(m),
                    },
                    m => pass(m),
                }
            } else {
                Parsed::Fail { err: DecodeError::UnrecognizedCodec }
            },
        },
        m => pass(m),
    }
}

/// The frame a payload and its verified checksum make.
pub open spec fn frame_of(pv: PayloadView, crc: u32) -> FrameView {
    match pv {
        PayloadView::Telemetry { codec, records } => FrameView::AVL(
            AvlFrameView { codec, records, crc16: crc },
        ),
        PayloadView::Command { codec, responses } => FrameView::GPRS(
            GprsFrameView { codec, command_responses: responses, crc16: crc },
        ),
    }
}

/// A connection-oriented frame: a 4-byte all-zero preamble, a 4-byte payload
/// length, the payload, and a trailing 4-byte value that must equal the
/// payload's checksum. Fewer than 4 bytes is `Incomplete`; a nonzero
/// preamble is `InvalidPreamble`. The payload is parsed only once all its
/// bytes are buffered; payload bytes past the parsed shape are ignored but
/// still checksummed.
pub open spec fn sp_frame(s: Seq<u8>) -> Parsed<FrameView> {
    if s.len() < 4 {
        Parsed::More { need: 4 - s.len() }
    } else if !(s[0] == 0 && s[1] == 0 && s[2] == 0 && s[3] == 0) {
        Parsed::Fail { err: DecodeError::InvalidPreamble }
    } else if s.len() < 8 {
        Parsed::More { need: 8 - s.len() }
    } else {
        let l: int = be32_at(s, 4) as int;
        if s.len() < 8 + l {
            Parsed::More { need: 8 + l - s.len() }
        } else {
            let p = s.subrange(8, 8 + l);
            match sp_payload(p) {
                Parsed::Done { v: pv, end: _e } => if s.len() < 8 + l + 4 {
                    Parsed::More { need: 8 + l + 4 - s.len() }
                } else {
                    let crc_given = be32_at(s, 8 + l);
                    if crc_given != spec_crc16(p) as u32 {
                        Parsed::Fail { err: DecodeError::ChecksumMismatch }
                    } else {
                        Parsed::Done { v: frame_of(pv, crc_given), end: 8 + l + 4 }
                    }
                },
                m => pass(m),
            }
        }
    }
}

/// A connectionless datagram: a 2-byte length, then within that span a
/// packet identifier, the fixed marker byte 0x01, a sub-identifier, the
/// device identifier, a telemetry codec and the record list with its
/// redundant trailing count. No checksum on this transport; bytes of the
/// span past the record list are ignored.
pub open spec fn sp_datagram(s: Seq<u8>) -> Parsed<DatagramView> {
    if s.len() < 2 {
        Parsed::More { need: 2 - s.len() }
    } else {
        let l: int = be16_at(s, 0) as int;
        if s.len() < 2 + l {
            Parsed::More { need: 2 + l - s.len() }
        } else {
            let p = s.subrange(2, 2 + l);
            match sp_datagram_body(p) {
                Parsed::Done { v, end: _e } => Parsed::Done { v, end: 2 + l },
                m => pass(m),
            }
        }
    }
}

/// The body of a datagram, inside its length-delimited span.
pub open spec fn sp_datagram_body(p: Seq<u8>) -> Parsed<DatagramView> {
    match sp_be16(p, 0) {
        Parsed::Done { v: packet_id, end: i1 } => match sp_u8(p, i1) {
            Parsed::Done { v: marker, end: i2 } => if marker != 0x01 {
                Parsed::Fail { err: DecodeError::InvalidPreamble }
            } else {
                match sp_u8(p, i2) {
                    Parsed::Done { v: avl_packet_id, end: i3 } => match sp_imei(p, i3) {
                        Parsed::Done { v: imei, end: i4 } => match sp_u8(p, i4) {
                            Parsed::Done { v: cb, end: i5 } => match spec_codec_from_byte(cb) {
                                Option::None => Parsed::Fail {
                                    err: DecodeError::UnrecognizedCodec,
                                },
                                Option::Some(c) => if !spec_is_telemetry(c) {
                                    Parsed::Fail { err: DecodeError::UnrecognizedCodec }
                                } else {
                                    match sp_u8(p, i5) {
                                        Parsed::Done { v: n, end: i6 } => match sp_records(
                                            p,
                                            i6,
                                            c,
                                            n as nat,
                                        ) {
                                            Parsed::Done { v: recs, end: e } => match sp_u8(p, e) {
                                                Parsed::Done { v: t, end: e2 } => if t as int
                                                    != recs.len() {
                                                    Parsed::Fail {
                                                        err: DecodeError::CountMismatch,
                                                    }
                                                } else {
                                                    Parsed::Done {
                                                        v: DatagramView {
                                                            packet_id,
                                                            avl_packet_id,
                                                            imei,
                                                            codec: c,
                                                            records: recs,
                                                        },
                                                        end: e2,
                                                    }
                                                },
                                                m => pass(m),
                                            },
                                            m => pass(m),
                                        },
                                        m => pass(m),
                                    }
                                },
                            },
                            m => pass(m),
                        },
                        m => pass(m),
                    },
                    m => pass(m),
                }
            },
            m => pass(m),
        },
        m => pass(m),
    }
}

/// The standalone command-response read, in the exact field order of the
/// connection handshake: preamble, payload length, the `C12` codec byte, a
/// quantity byte, the fixed response type tag 0x06, one 4-byte-length-
/// prefixed response, a trailing quantity byte, and the 4-byte checksum of
/// the declared payload span. Returns the raw response bytes.
pub open spec fn sp_command_response(s: Seq<u8>) -> Parsed<Seq<u8>> {
    if s.len() < 4 {
        Parsed::More { need: 4 - s.len() }
    } else if !(s[0] == 0 && s[1] == 0 && s[2] == 0 && s[3] == 0) {
        Parsed::Fail { err: DecodeError::InvalidPreamble }
    } else if s.len() < 8 {
        Parsed::More { need: 8 - s.len() }
    } else {
        let l: int = be32_at(s, 4) as int;
        match sp_u8(s, 8) {
            Parsed::Done { v: cb, end: i1 } => if cb != 0x0C {
                Parsed::Fail { err: DecodeError::UnrecognizedCodec }
            } else {
                match sp_u8(s, i1) {
                    Parsed::Done { v: _q, end: i2 } => match sp_u8(s, i2) {
                        Parsed::Done { v: tag, end: i3 } => if tag != 0x06 {
                            Parsed::Fail { err: DecodeError::UnrecognizedEnumValue }
                        } else {
                            match sp_be32(s, i3) {
                                Parsed::Done { v: n, end: i4 } => match sp_bytes(s, i4, n as int) {
                                    Parsed::Done { v: resp, end: i5 } => match sp_u8(s, i5) {
                                        Parsed::Done { v: _q2, end: i6 } => if s.len() < 8 + l {
                                            Parsed::More { need: 8 + l - s.len() }
                                        } else {
                                            match sp_be32(s, i6) {
                                                Parsed::Done { v: crc_given, end: e } => if
                                                    crc_given != spec_crc16(
                                                    s.subrange(8, 8 + l),
                                                ) as u32 {
                                                    Parsed::Fail {
                                                        err: DecodeError::ChecksumMismatch,
                                                    }
                                                } else {
                                                    Parsed::Done { v: resp, end: e }
                                                },
                                                m => pass(m),
                                            }
                                        },
                                        m => pass(m),
                                    },
                                    m => pass(m),
                                },
                                m => pass(m),
                            }
                        },
                        m => pass(m),
                    },
                    m => pass(m),
                }
            },
            m => pass(m),
        }
    }
}

// ------------------------------------------------------------------
// Encoding
// ------------------------------------------------------------------

/// The two big-endian bytes of a 16-bit value.
pub open spec fn be16_bytes(v: u16) -> Seq<u8> {
    seq![(v / 0x100) as u8, (v % 0x100) as u8]
}

/// The four big-endian bytes of a 32-bit value.
pub open spec fn be32_bytes(v: u32) -> Seq<u8> {
    seq![
        (v / 0x1000000) as u8,
        ((v / 0x10000) % 0x100) as u8,
        ((v / 0x100) % 0x100) as u8,
        (v % 0x100) as u8,
    ]
}

/// One encoded command: a 4-byte length prefix, then the raw bytes.
pub open spec fn encoded_command(cmd: Seq<char>) -> Seq<u8> {
    be32_bytes(cmd.len() as u32) + bytes_of_chars(cmd)
}

/// The encoded command list, back to back.
pub open spec fn encoded_command_list(cmds: Seq<Seq<char>>) -> Seq<u8>
    decreases cmds.len(),
{
    if cmds.len() == 0 {
        Seq::empty()
    } else {
        encoded_command(cmds[0]) + encoded_command_list(cmds.drop_first())
    }
}

/// The payload of a command frame: the command codec byte, the command
/// count, the fixed "set" type tag 0x05, the commands, and the redundant
/// trailing count.
pub open spec fn commands_payload(cmds: Seq<Seq<char>>) -> Seq<u8> {
    seq![0x0Cu8, cmds.len() as u8, 0x05u8] + encoded_command_list(cmds) + seq![cmds.len() as u8]
}

/// The whole command frame: zero preamble, payload length, payload, and the
/// payload's checksum widened to four bytes.
pub open spec fn commands_frame(cmds: Seq<Seq<char>>) -> Seq<u8> {
    let p = commands_payload(cmds);
    seq![0u8, 0u8, 0u8, 0u8] + be32_bytes(p.len() as u32) + p + be32_bytes(spec_crc16(p) as u32)
}

/// The bytes of a telemetry-frame acknowledgement: the record or response
/// count as four big-endian bytes.
pub open spec fn frame_ack(count: u32) -> Seq<u8> {
    be32_bytes(count)
}

/// The bytes of a datagram acknowledgement, mirroring the datagram header:
/// a 2-byte count, the packet identifier, the fixed marker byte, the
/// sub-identifier, and a 4-byte count.
pub open spec fn datagram_ack(count16: u16, packet_id: u16, avl_packet_id: u8, count32: u32) -> Seq<
    u8,
> {
    be16_bytes(count16) + be16_bytes(packet_id) + seq![0x01u8, avl_packet_id] + be32_bytes(count32)
}


// ------------------------------------------------------------------
// Unfolding lemmas for the recursive list parsers
// ------------------------------------------------------------------

pub proof fn lemma_sp_events_step(s: Seq<u8>, i: int, c: Codec, k: EventValueKind, n: nat)
    requires
        n > 0,
    ensures
        ({
            let e = sp_event(s, i, c, k);
            &&& (e is Done ==> sp_events(s, i, c, k, n) == pres_append(
                seq![e->v],
                sp_events(s, e->end, c, k, (n - 1) as nat),
            ))
            &&& (!(e is Done) ==> sp_events(s, i, c, k, n) == pass::<EventView, Seq<EventView>>(e))
        }),
{
    let e = sp_event(s, i, c, k);
    if e is Done {
        match sp_events(s, e->end, c, k, (n - 1) as nat) {
            Parsed::Done { v, end } => {
                assert(seq![e->v] + v =~= seq![e->v] + v);
            },
            Parsed::More { need } => {
            },
            Parsed::Fail { err } => {
            },
        }
    }
}

pub proof fn lemma_sp_records_step(s: Seq<u8>, i: int, c: Codec, n: nat)
    requires
        n > 0,
    ensures
        ({
            let e = sp_record(s, i, c);
            &&& (e is Done ==> sp_records(s, i, c, n) == pres_append(
                seq![e->v],
                sp_records(s, e->end, c, (n - 1) as nat),
            ))
            &&& (!(e is Done) ==> sp_records(s, i, c, n) == pass::<RecordView, Seq<RecordView>>(e))
        }),
{
    let e = sp_record(s, i, c);
    if e is Done {
        match sp_records(s, e->end, c, (n - 1) as nat) {
            Parsed::Done { v, end } => {
            },
            Parsed::More { need } => {
            },
            Parsed::Fail { err } => {
            },
        }
    }
}

pub proof fn lemma_sp_responses_step(s: Seq<u8>, i: int, n: nat)
    requires
        n > 0,
    ensures
        ({
            let e = sp_response(s, i);
            &&& (e is Done ==> sp_responses(s, i, n) == pres_append(
                seq![e->v],
                sp_responses(s, e->end, (n - 1) as nat),
            ))
            &&& (!(e is Done) ==> sp_responses(s, i, n) == pass::<Seq<char>, Seq<Seq<char>>>(e))
        }),
{
    let e = sp_response(s, i);
    if e is Done {
        match sp_responses(s, e->end, (n - 1) as nat) {
            Parsed::Done { v, end } => {
            },
            Parsed::More { need } => {
            },
            Parsed::Fail { err } => {
            },
        }
    }
}


// ------------------------------------------------------------------
// Position bounds and length facts
// ------------------------------------------------------------------

pub proof fn lemma_sp_event_bounds(s: Seq<u8>, i: int, c: Codec, k: EventValueKind)
    requires
        sp_event(s, i, c, k) is Done,
    ensures
        i <= sp_event(s, i, c, k)->end <= s.len(),
{
}

pub proof fn lemma_sp_events_bounds(s: Seq<u8>, i: int, c: Codec, k: EventValueKind, n: nat)
    requires
        sp_events(s, i, c, k, n) is Done,
    ensures
        i <= sp_events(s, i, c, k, n)->end <= s.len() || n == 0 && sp_events(
            s,
            i,
            c,
            k,
            n,
        )->end == i,
        n == 0 ==> sp_events(s, i, c, k, n)->end == i,
        n > 0 ==> i <= sp_events(s, i, c, k, n)->end <= s.len(),
        sp_events(s, i, c, k, n)->v.len() == n,
    decreases n,
{
    if n > 0 {
        lemma_sp_event_bounds(s, i, c, k);
        let e = sp_event(s, i, c, k);
        lemma_sp_events_bounds(s, e->end, c, k, (n - 1) as nat);
    }
}

pub proof fn lemma_sp_event_group_bounds(s: Seq<u8>, i: int, c: Codec, k: EventValueKind)
    requires
        sp_event_group(s, i, c, k) is Done,
    ensures
        i <= sp_event_group(s, i, c, k)->end <= s.len(),
{
    let w = sp_width(s, i, spec_count_width(c));
    let n = w->v as nat;
    lemma_sp_events_bounds(s, w->end, c, k, n);
}

pub proof fn lemma_sp_io_groups_bounds(s: Seq<u8>, i: int, c: Codec)
    requires
        sp_io_groups(s, i, c) is Done,
    ensures
        i <= sp_io_groups(s, i, c)->end <= s.len(),
{
    let g1 = sp_event_group(s, i, c, EventValueKind::U8);
    lemma_sp_event_group_bounds(s, i, c, EventValueKind::U8);
    let g2 = sp_event_group(s, g1->end, c, EventValueKind::U16);
    lemma_sp_event_group_bounds(s, g1->end, c, EventValueKind::U16);
    let g4 = sp_event_group(s, g2->end, c, EventValueKind::U32);
    lemma_sp_event_group_bounds(s, g2->end, c, EventValueKind::U32);
    let g8 = sp_event_group(s, g4->end, c, EventValueKind::U64);
    lemma_sp_event_group_bounds(s, g4->end, c, EventValueKind::U64);
    if c == Codec::C8Ext {
        lemma_sp_event_group_bounds(s, g8->end, c, EventValueKind::Variable);
    }
}

pub proof fn lemma_sp_io_all_bounds(s: Seq<u8>, i: int, c: Codec)
    requires
        sp_io_all(s, i, c) is Done,
    ensures
        i <= sp_io_all(s, i, c)->end <= s.len(),
{
    let w = sp_width(s, i, spec_count_width(c));
    lemma_sp_io_groups_bounds(s, w->end, c);
}

pub proof fn lemma_sp_record_bounds(s: Seq<u8>, i: int, c: Codec)
    requires
        sp_record(s, i, c) is Done,
    ensures
        i <= sp_record(s, i, c)->end <= s.len(),
{
    reveal(sp_record);
    let ts = sp_be64(s, i);
    let pb = sp_u8(s, ts->end);
    let geo = sp_geo(s, pb->end);
    let trig = sp_trigger(s, geo->end, c);
    lemma_sp_io_all_bounds(s, trig->end, c);
}

pub proof fn lemma_sp_records_bounds(s: Seq<u8>, i: int, c: Codec, n: nat)
    requires
        sp_records(s, i, c, n) is Done,
    ensures
        n == 0 ==> sp_records(s, i, c, n)->end == i,
        n > 0 ==> i <= sp_records(s, i, c, n)->end <= s.len(),
        sp_records(s, i, c, n)->v.len() == n,
    decreases n,
{
    if n > 0 {
        lemma_sp_record_bounds(s, i, c);
        let e = sp_record(s, i, c);
        lemma_sp_records_bounds(s, e->end, c, (n - 1) as nat);
    }
}


// ------------------------------------------------------------------
// Facts about the command encoding
// ------------------------------------------------------------------

/// How the encoded command list grows with one more command.
pub proof fn lemma_encoded_list_snoc(cmds: Seq<Seq<char>>, i: int)
    requires
        0 <= i < cmds.len(),
    ensures
        encoded_command_list(cmds.subrange(0, i + 1)) == encoded_command_list(
            cmds.subrange(0, i),
        ) + encoded_command(cmds[i]),
    decreases i,
{
    let pre = cmds.subrange(0, i + 1);
    if i == 0 {
        assert(pre.drop_first() =~= Seq::<Seq<char>>::empty());
        assert(cmds.subrange(0, 0) =~= Seq::<Seq<char>>::empty());
        assert(encoded_command_list(cmds.subrange(0, 1)) =~= encoded_command_list(
            cmds.subrange(0, 0),
        ) + encoded_command(cmds[0]));
    } else {
        let shifted = cmds.subrange(1, cmds.len() as int);
        assert(pre.drop_first() =~= shifted.subrange(0, i));
        lemma_encoded_list_snoc(shifted, i - 1);
        assert(shifted.subrange(0, i - 1) =~= cmds.subrange(0, i).drop_first());
        assert(encoded_command_list(cmds.subrange(0, i)) == encoded_command(cmds[0])
            + encoded_command_list(cmds.subrange(0, i).drop_first()));
        assert(shifted[i - 1] == cmds[i]);
        assert(encoded_command_list(pre) == encoded_command(cmds[0]) + encoded_command_list(
            shifted.subrange(0, i),
        ));
        assert(encoded_command(cmds[0]) + (encoded_command_list(shifted.subrange(0, i - 1))
            + encoded_command(cmds[i])) =~= (encoded_command(cmds[0]) + encoded_command_list(
            shifted.subrange(0, i - 1),
        )) + encoded_command(cmds[i]));
    }
}

/// A prefix of the command list encodes to a prefix of the whole encoding.
pub proof fn lemma_encoded_list_prefix_len(cmds: Seq<Seq<char>>, i: int)
    requires
        0 <= i <= cmds.len(),
    ensures
        encoded_command_list(cmds).len() >= encoded_command_list(cmds.subrange(0, i)).len(),
    decreases cmds.len() - i,
{
    if i == cmds.len() {
        assert(cmds.subrange(0, i) =~= cmds);
    } else {
        lemma_encoded_list_snoc(cmds, i);
        lemma_encoded_list_prefix_len(cmds, i + 1);
    }
}

/// A 4-byte window holding the big-endian bytes of a value reads back as
/// that value.
pub proof fn lemma_be32_bytes_at(s: Seq<u8>, i: int, v: u32)
    requires
        0 <= i,
        i + 4 <= s.len(),
        s.subrange(i, i + 4) == be32_bytes(v),
    ensures
        be32_at(s, i) == v,
{
    broadcast use vstd::arithmetic::div_mod::lemma_fundamental_div_mod;
    broadcast use vstd::arithmetic::div_mod::lemma_mod_breakdown;

    let x = v as int;
    assert(s[i] == be32_bytes(v)[0] && s[i + 1] == be32_bytes(v)[1] && s[i + 2] == be32_bytes(
        v,
    )[2] && s[i + 3] == be32_bytes(v)[3]) by {
        assert(s.subrange(i, i + 4)[0] == s[i]);
        assert(s.subrange(i, i + 4)[1] == s[i + 1]);
        assert(s.subrange(i, i + 4)[2] == s[i + 2]);
        assert(s.subrange(i, i + 4)[3] == s[i + 3]);
    }
    assert(x / 0x1000000 < 0x100) by (nonlinear_arith)
        requires
            0 <= x <= 0xFFFFFFFF,
    ;
    assert(x == 0x1000000 * (x / 0x1000000) + (x % 0x1000000));
    assert(x % 0x1000000 == 0x10000 * ((x / 0x10000) % 0x100) + x % 0x10000) by {
        assert(x % ((0x10000int) * (0x100int)) == 0x10000 * ((x / 0x10000) % 0x100) + x % 0x10000);
    }
    assert(x % 0x10000 == 0x100 * ((x / 0x100) % 0x100) + x % 0x100) by {
        assert(x % ((0x100int) * (0x100int)) == 0x100 * ((x / 0x100) % 0x100) + x % 0x100);
    }
}

} // verus!
