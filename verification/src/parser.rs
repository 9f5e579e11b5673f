//! Executable decoding of the wire format. Every function here is proved to
//! return exactly what the specification parser in [`crate::format`] says
//! for its input: the same value and consumed length on success, the same
//! byte-count hint on `Incomplete`, and the same terminal error otherwise.

use vstd::prelude::*;
use vstd::slice::slice_subrange;

use crate::format::{
    char_of_byte, chars_of_bytes, lemma_map_values_push, lemma_pres_append_assoc,
    lemma_pres_append_empty, lemma_sp_events_step, lemma_sp_records_step,
    lemma_sp_responses_step, pres_append, sp_be16, sp_be32, sp_be64, sp_bytes,
    sp_command_response, sp_datagram, sp_datagram_body, sp_event, sp_event_group, sp_event_value,
    sp_events, sp_frame, sp_imei, sp_io_all, sp_io_groups, sp_payload, sp_record, sp_records,
    sp_response, sp_responses, sp_u8, sp_width, EventValueKind, Parsed, PayloadView,
};
use crate::protocol::{
    spec_count_width, spec_id_width, AVLDatagram, AVLEventIO, AVLEventIOValue, AVLFrame,
    AVLRecord, Codec, DecodeError, EventGenerationCause, GPRSFrame, Priority, TeltonikaFrame,
};
use crate::trusted::timestamp_millis_valid;
use crate::crc16;

verus! {

// ------------------------------------------------------------------
// Primitive readers
// ------------------------------------------------------------------

fn take_u8(data: &[u8], pos: usize) -> (r: Result<(usize, u8), DecodeError>)
    requires
        pos <= data@.len(),
    ensures
        match sp_u8(data@, pos as int) {
            Parsed::Done { v, end } => r matches Ok((q, x)) && x == v && q as int == end && end
                <= data@.len(),
            Parsed::More { need } => r matches Err(DecodeError::Incomplete(nd)) && nd as int
                == need,
            Parsed::Fail { err } => false,
        },
{
    if pos < data.len() {
        Ok((pos + 1, data[pos]))
    } else {
        Err(DecodeError::Incomplete(pos - data.len() + 1))
    }
}

fn take_be16(data: &[u8], pos: usize) -> (r: Result<(usize, u16), DecodeError>)
    requires
        pos <= data@.len(),
    ensures
        match sp_be16(data@, pos as int) {
            Parsed::Done { v, end } => r matches Ok((q, x)) && x == v && q as int == end && end
                <= data@.len(),
            Parsed::More { need } => r matches Err(DecodeError::Incomplete(nd)) && nd as int
                == need,
            Parsed::Fail { err } => false,
        },
{
    if data.len() - pos >= 2 {
        let x: u16 = (data[pos] as u16) * 0x100 + (data[pos + 1] as u16);
        Ok((pos + 2, x))
    } else {
        Err(DecodeError::Incomplete(2 - (data.len() - pos)))
    }
}

fn take_be32(data: &[u8], pos: usize) -> (r: Result<(usize, u32), DecodeError>)
    requires
        pos <= data@.len(),
    ensures
        match sp_be32(data@, pos as int) {
            Parsed::Done { v, end } => r matches Ok((q, x)) && x == v && q as int == end && end
                <= data@.len(),
            Parsed::More { need } => r matches Err(DecodeError::Incomplete(nd)) && nd as int
                == need,
            Parsed::Fail { err } => false,
        },
{
    if data.len() - pos >= 4 {
        let x: u32 = (data[pos] as u32) * 0x1000000 + (data[pos + 1] as u32) * 0x10000 + (data[pos
            + 2] as u32) * 0x100 + (data[pos + 3] as u32);
        Ok((pos + 4, x))
    } else {
        Err(DecodeError::Incomplete(4 - (data.len() - pos)))
    }
}

fn take_be64(data: &[u8], pos: usize) -> (r: Result<(usize, u64), DecodeError>)
    requires
        pos <= data@.len(),
    ensures
        match sp_be64(data@, pos as int) {
            Parsed::Done { v, end } => r matches Ok((q, x)) && x == v && q as int == end && end
                <= data@.len(),
            Parsed::More { need } => r matches Err(DecodeError::Incomplete(nd)) && nd as int
                == need,
            Parsed::Fail { err } => false,
        },
{
    if data.len() - pos >= 8 {
        let x: u64 = (data[pos] as u64) * 0x100000000000000 + (data[pos + 1] as u64)
            * 0x1000000000000 + (data[pos + 2] as u64) * 0x10000000000 + (data[pos + 3] as u64)
            * 0x100000000 + (data[pos + 4] as u64) * 0x1000000 + (data[pos + 5] as u64) * 0x10000
            + (data[pos + 6] as u64) * 0x100 + (data[pos + 7] as u64);
        Ok((pos + 8, x))
    } else {
        Err(DecodeError::Incomplete(8 - (data.len() - pos)))
    }
}

/// Reads an event identifier: 1 byte under `C8`, 2 bytes otherwise.
fn take_id(data: &[u8], pos: usize, c: Codec) -> (r: Result<(usize, u16), DecodeError>)
    requires
        pos <= data@.len(),
    ensures
        match sp_width(data@, pos as int, spec_id_width(c)) {
            Parsed::Done { v, end } => r matches Ok((q, x)) && x == v && q as int == end && end
                <= data@.len(),
            Parsed::More { need } => r matches Err(DecodeError::Incomplete(nd)) && nd as int
                == need,
            Parsed::Fail { err } => false,
        },
{
    if c == Codec::C8 {
        match take_u8(data, pos) {
            Ok((q, b)) => Ok((q, b as u16)),
            Err(e) => Err(e),
        }
    } else {
        take_be16(data, pos)
    }
}

/// Reads an event count: 2 bytes under the extended codec, 1 byte otherwise.
fn take_count(data: &[u8], pos: usize, c: Codec) -> (r: Result<(usize, u16), DecodeError>)
    requires
        pos <= data@.len(),
    ensures
        match sp_width(data@, pos as int, spec_count_width(c)) {
            Parsed::Done { v, end } => r matches Ok((q, x)) && x == v && q as int == end && end
                <= data@.len(),
            Parsed::More { need } => r matches Err(DecodeError::Incomplete(nd)) && nd as int
                == need,
            Parsed::Fail { err } => false,
        },
{
    if c == Codec::C8Ext {
        take_be16(data, pos)
    } else {
        match take_u8(data, pos) {
            Ok((q, b)) => Ok((q, b as u16)),
            Err(e) => Err(e),
        }
    }
}

/// Reads `n` raw bytes into an owned buffer.
fn take_bytes(data: &[u8], pos: usize, n: usize) -> (r: Result<(usize, Vec<u8>), DecodeError>)
    requires
        pos <= data@.len(),
    ensures
        match sp_bytes(data@, pos as int, n as int) {
            Parsed::Done { v, end } => r matches Ok((q, x)) && x@ == v && q as int == end && end
                <= data@.len(),
            Parsed::More { need } => r matches Err(DecodeError::Incomplete(nd)) && nd as int
                == need,
            Parsed::Fail { err } => false,
        },
{
    if data.len() - pos >= n {
        let piece = slice_subrange(data, pos, pos + n);
        let mut out: Vec<u8> = Vec::new();
        let mut i: usize = 0;
        while i < piece.len()
            invariant
                i <= piece@.len(),
                out@ == piece@.subrange(0, i as int),
            decreases piece@.len() - i,
        {
            out.push(piece[i]);
            proof {
                assert(out@ =~= piece@.subrange(0, i + 1));
            }
            i += 1;
        }
        proof {
            assert(out@ =~= piece@);
        }
        Ok((pos + n, out))
    } else {
        Err(DecodeError::Incomplete(n - (data.len() - pos)))
    }
}

/// Builds the string whose characters are the given bytes, one character
/// per byte.
fn string_of_bytes(bytes: &Vec<u8>) -> (s: String)
    ensures
        s@ == chars_of_bytes(bytes@),
{
    let mut s = String::new();
    let mut i: usize = 0;
    while i < bytes.len()
        invariant
            i <= bytes@.len(),
            s@.len() == i,
            forall|j: int| 0 <= j < i ==> s@[j] == char_of_byte(bytes@[j]),
        decreases bytes@.len() - i,
    {
        let c = bytes[i] as char;
        s.push(c);
        i += 1;
    }
    proof {
        assert(s@ =~= chars_of_bytes(bytes@));
    }
    s
}

// ------------------------------------------------------------------
// Events
// ------------------------------------------------------------------

fn scan_event_value(data: &[u8], pos: usize, c: Codec, k: EventValueKind) -> (r: Result<
    (usize, AVLEventIOValue),
    DecodeError,
>)
    requires
        pos <= data@.len(),
    ensures
        match sp_event_value(data@, pos as int, c, k) {
            Parsed::Done { v, end } => r matches Ok((q, x)) && x@ == v && q as int == end && end
                <= data@.len(),
            Parsed::More { need } => r matches Err(DecodeError::Incomplete(nd)) && nd as int
                == need,
            Parsed::Fail { err } => false,
        },
{
    match k {
        EventValueKind::U8 => match take_u8(data, pos) {
            Ok((q, x)) => Ok((q, AVLEventIOValue::U8(x))),
            Err(e) => Err(e),
        },
        EventValueKind::U16 => match take_be16(data, pos) {
            Ok((q, x)) => Ok((q, AVLEventIOValue::U16(x))),
            Err(e) => Err(e),
        },
        EventValueKind::U32 => match take_be32(data, pos) {
            Ok((q, x)) => Ok((q, AVLEventIOValue::U32(x))),
            Err(e) => Err(e),
        },
        EventValueKind::U64 => match take_be64(data, pos) {
            Ok((q, x)) => Ok((q, AVLEventIOValue::U64(x))),
            Err(e) => Err(e),
        },
        EventValueKind::Variable => match take_count(data, pos, c) {
            Ok((q, n)) => match take_bytes(data, q, n as usize) {
                Ok((q2, bs)) => Ok((q2, AVLEventIOValue::Variable(bs))),
                Err(e) => Err(e),
            },
            Err(e) => Err(e),
        },
    }
}

fn scan_event(data: &[u8], pos: usize, c: Codec, k: EventValueKind) -> (r: Result<
    (usize, AVLEventIO),
    DecodeError,
>)
    requires
        pos <= data@.len(),
    ensures
        match sp_event(data@, pos as int, c, k) {
            Parsed::Done { v, end } => r matches Ok((q, x)) && x@ == v && q as int == end && end
                <= data@.len(),
            Parsed::More { need } => r matches Err(DecodeError::Incomplete(nd)) && nd as int
                == need,
            Parsed::Fail { err } => false,
        },
{
    match take_id(data, pos, c) {
        Ok((q, id)) => match scan_event_value(data, q, c, k) {
            Ok((q2, value)) => Ok((q2, AVLEventIO { id, value })),
            Err(e) => Err(e),
        },
        Err(e) => Err(e),
    }
}

spec fn event_views(evs: Seq<AVLEventIO>) -> Seq<crate::protocol::EventView> {
    evs.map_values(|e: AVLEventIO| e@)
}

fn scan_events(data: &[u8], pos: usize, c: Codec, k: EventValueKind, n: u16) -> (r: Result<
    (usize, Vec<AVLEventIO>),
    DecodeError,
>)
    requires
        pos <= data@.len(),
    ensures
        match sp_events(data@, pos as int, c, k, n as nat) {
            Parsed::Done { v, end } => r matches Ok((q, x)) && event_views(x@) == v && q as int
                == end && end <= data@.len() && pos <= q,
            Parsed::More { need } => r matches Err(DecodeError::Incomplete(nd)) && nd as int
                == need,
            Parsed::Fail { err } => false,
        },
{
    let mut evs: Vec<AVLEventIO> = Vec::new();
    let mut cur: usize = pos;
    let mut done: u16 = 0;
    proof {
        assert(event_views(evs@) =~= Seq::<crate::protocol::EventView>::empty());
        assert(pres_append(event_views(evs@), sp_events(data@, pos as int, c, k, n as nat))
            == sp_events(data@, pos as int, c, k, n as nat)) by {
            match sp_events(data@, pos as int, c, k, n as nat) {
                Parsed::Done { v, end } => {
                    assert(event_views(evs@) + v =~= v);
                },
                Parsed::More { need } => {
                },
                Parsed::Fail { err } => {
                },
            }
        }
    }
    while done < n
        invariant
            pos <= cur <= data@.len(),
            done <= n,
            sp_events(data@, pos as int, c, k, n as nat) == pres_append(
                event_views(evs@),
                sp_events(data@, cur as int, c, k, (n - done) as nat),
            ),
        decreases n - done,
    {
        proof {
            lemma_sp_events_step(data@, cur as int, c, k, (n - done) as nat);
        }
        match scan_event(data, cur, c, k) {
            Ok((q, ev)) => {
                proof {
                    lemma_pres_append_assoc(
                        event_views(evs@),
                        seq![ev@],
                        sp_events(data@, q as int, c, k, (n - done - 1) as nat),
                    );
                    lemma_map_values_push(evs@, |e: AVLEventIO| e@, ev);
                    assert(event_views(evs@) + seq![ev@] =~= event_views(evs@.push(ev)));
                }
                evs.push(ev);
                cur = q;
                done = done + 1;
            },
            Err(e) => {
                return Err(e);
            },
        }
    }
    proof {
        lemma_pres_append_empty(
            event_views(evs@),
            sp_events(data@, cur as int, c, k, (n - done) as nat),
        );
    }
    Ok((cur, evs))
}

fn scan_event_group(data: &[u8], pos: usize, c: Codec, k: EventValueKind) -> (r: Result<
    (usize, Vec<AVLEventIO>),
    DecodeError,
>)
    requires
        pos <= data@.len(),
    ensures
        match sp_event_group(data@, pos as int, c, k) {
            Parsed::Done { v, end } => r matches Ok((q, x)) && event_views(x@) == v && q as int
                == end && end <= data@.len() && pos <= q,
            Parsed::More { need } => r matches Err(DecodeError::Incomplete(nd)) && nd as int
                == need,
            Parsed::Fail { err } => false,
        },
{
    match take_count(data, pos, c) {
        Ok((q, n)) => scan_events(data, q, c, k, n),
        Err(e) => Err(e),
    }
}


// ------------------------------------------------------------------
// Records
// ------------------------------------------------------------------

/// Reinterprets a raw 32-bit coordinate as its two's-complement value.
fn i32_from_be32(v: u32) -> (r: i32)
    ensures
        r == crate::format::i32_of_be32(v),
{
    if v < 0x80000000 {
        v as i32
    } else {
        -((0xFFFFFFFFu32 - v) as i32) - 1
    }
}

fn scan_io_groups(data: &[u8], pos: usize, c: Codec) -> (r: Result<
    (usize, Vec<AVLEventIO>),
    DecodeError,
>)
    requires
        pos <= data@.len(),
    ensures
        match sp_io_groups(data@, pos as int, c) {
            Parsed::Done { v, end } => r matches Ok((q, x)) && event_views(x@) == v && q as int
                == end && end <= data@.len() && pos <= q,
            Parsed::More { need } => r matches Err(DecodeError::Incomplete(nd)) && nd as int
                == need,
            Parsed::Fail { err } => false,
        },
{
    let (q1, mut g1) = match scan_event_group(data, pos, c, EventValueKind::U8) {
        Ok(x) => x,
        Err(e) => { return Err(e); },
    };
    let (q2, mut g2) = match scan_event_group(data, q1, c, EventValueKind::U16) {
        Ok(x) => x,
        Err(e) => { return Err(e); },
    };
    let (q3, mut g4) = match scan_event_group(data, q2, c, EventValueKind::U32) {
        Ok(x) => x,
        Err(e) => { return Err(e); },
    };
    let (q4, mut g8) = match scan_event_group(data, q3, c, EventValueKind::U64) {
        Ok(x) => x,
        Err(e) => { return Err(e); },
    };
    let ghost v1 = event_views(g1@);
    let ghost v2 = event_views(g2@);
    let ghost v4 = event_views(g4@);
    let ghost v8 = event_views(g8@);
    if c == Codec::C8Ext {
        let (q5, mut gv) = match scan_event_group(data, q4, c, EventValueKind::Variable) {
            Ok(x) => x,
            Err(e) => { return Err(e); },
        };
        let ghost vv = event_views(gv@);
        g1.append(&mut g2);
        g1.append(&mut g4);
        g1.append(&mut g8);
        g1.append(&mut gv);
        proof {
            assert(event_views(g1@) =~= v1 + v2 + v4 + v8 + vv);
        }
        Ok((q5, g1))
    } else {
        g1.append(&mut g2);
        g1.append(&mut g4);
        g1.append(&mut g8);
        proof {
            assert(event_views(g1@) =~= v1 + v2 + v4 + v8);
        }
        Ok((q4, g1))
    }
}

fn scan_io_all(data: &[u8], pos: usize, c: Codec) -> (r: Result<
    (usize, Vec<AVLEventIO>),
    DecodeError,
>)
    requires
        pos <= data@.len(),
    ensures
        match sp_io_all(data@, pos as int, c) {
            Parsed::Done { v, end } => r matches Ok((q, x)) && event_views(x@) == v && q as int
                == end && end <= data@.len() && pos <= q,
            Parsed::More { need } => r matches Err(DecodeError::Incomplete(nd)) && nd as int
                == need,
            Parsed::Fail { err } => r matches Err(e) && e == err && !(err is Incomplete),
        },
{
    let (q, total) = match take_count(data, pos, c) {
        Ok(x) => x,
        Err(e) => { return Err(e); },
    };
    let (q2, evs) = match scan_io_groups(data, q, c) {
        Ok(x) => x,
        Err(e) => { return Err(e); },
    };
    if evs.len() != total as usize {
        return Err(DecodeError::CountMismatch);
    }
    Ok((q2, evs))
}

/// Parses one record at a position under the given codec.
fn scan_record(data: &[u8], pos: usize, c: Codec) -> (r: Result<(usize, AVLRecord), DecodeError>)
    requires
        pos <= data@.len(),
    ensures
        match sp_record(data@, pos as int, c) {
            Parsed::Done { v, end } => r matches Ok((q, x)) && x@ == v && q as int == end && end
                <= data@.len() && pos <= q,
            Parsed::More { need } => r matches Err(DecodeError::Incomplete(nd)) && nd as int
                == need,
            Parsed::Fail { err } => r matches Err(e) && e == err && !(err is Incomplete),
        },
{
    proof {
        reveal(crate::format::sp_record);
    }
    let (p1, timestamp) = match take_be64(data, pos) {
        Ok(x) => x,
        Err(e) => { return Err(e); },
    };
    if !timestamp_millis_valid(timestamp) {
        return Err(DecodeError::InvalidTimestamp);
    }
    let (p2, pb) = match take_u8(data, p1) {
        Ok(x) => x,
        Err(e) => { return Err(e); },
    };
    let priority = match Priority::from_wire(pb) {
        Some(x) => x,
        None => { return Err(DecodeError::UnrecognizedEnumValue); },
    };
    let (p3, lon_raw) = match take_be32(data, p2) {
        Ok(x) => x,
        Err(e) => { return Err(e); },
    };
    let (p4, lat_raw) = match take_be32(data, p3) {
        Ok(x) => x,
        Err(e) => { return Err(e); },
    };
    let (p5, altitude) = match take_be16(data, p4) {
        Ok(x) => x,
        Err(e) => { return Err(e); },
    };
    let (p6, angle) = match take_be16(data, p5) {
        Ok(x) => x,
        Err(e) => { return Err(e); },
    };
    let (p7, satellites) = match take_u8(data, p6) {
        Ok(x) => x,
        Err(e) => { return Err(e); },
    };
    let (p8, speed) = match take_be16(data, p7) {
        Ok(x) => x,
        Err(e) => { return Err(e); },
    };
    let longitude = i32_from_be32(lon_raw);
    let latitude = i32_from_be32(lat_raw);
    let (p9, trigger_event_id) = match take_id(data, p8, c) {
        Ok(x) => x,
        Err(e) => { return Err(e); },
    };
    let generation_type: Option<EventGenerationCause>;
    let p10: usize;
    if c == Codec::C16 {
        let (pg, gb) = match take_u8(data, p9) {
            Ok(x) => x,
            Err(e) => { return Err(e); },
        };
        match EventGenerationCause::from_wire(gb) {
            Some(g) => {
                generation_type = Some(g);
                p10 = pg;
            },
            None => { return Err(DecodeError::UnrecognizedEnumValue); },
        }
    } else {
        generation_type = None;
        p10 = p9;
    }
    let (p11, io_events) = match scan_io_all(data, p10, c) {
        Ok(x) => x,
        Err(e) => { return Err(e); },
    };
    Ok((
        p11,
        AVLRecord {
            timestamp,
            priority,
            longitude,
            latitude,
            altitude,
            angle,
            satellites,
            speed,
            trigger_event_id,
            generation_type,
            io_events,
        },
    ))
}

/// Parses one record from the start of the input under the given codec.
///
/// On success the first component is the number of bytes consumed.
pub fn record(input: &[u8], codec: Codec) -> (r: Result<(usize, AVLRecord), DecodeError>)
    ensures
        match sp_record(input@, 0, codec) {
            Parsed::Done { v, end } => r matches Ok((q, x)) && x@ == v && q as int == end && end
                <= input@.len(),
            Parsed::More { need } => r matches Err(DecodeError::Incomplete(nd)) && nd as int
                == need,
            Parsed::Fail { err } => r matches Err(e) && e == err && !(err is Incomplete),
        },
{
    scan_record(input, 0, codec)
}

spec fn record_views(rs: Seq<AVLRecord>) -> Seq<crate::protocol::RecordView> {
    rs.map_values(|x: AVLRecord| x@)
}

#[verifier::rlimit(100)]
fn scan_records(data: &[u8], pos: usize, c: Codec, n: u8) -> (r: Result<
    (usize, Vec<AVLRecord>),
    DecodeError,
>)
    requires
        pos <= data@.len(),
    ensures
        match sp_records(data@, pos as int, c, n as nat) {
            Parsed::Done { v, end } => r matches Ok((q, x)) && record_views(x@) == v && q as int
                == end && end <= data@.len(),
            Parsed::More { need } => r matches Err(DecodeError::Incomplete(nd)) && nd as int
                == need,
            Parsed::Fail { err } => r matches Err(e) && e == err && !(err is Incomplete),
        },
{
    let mut recs: Vec<AVLRecord> = Vec::new();
    let mut cur: usize = pos;
    let mut done: u8 = 0;
    proof {
        assert(record_views(recs@) =~= Seq::<crate::protocol::RecordView>::empty());
        assert(pres_append(record_views(recs@), sp_records(data@, pos as int, c, n as nat))
            == sp_records(data@, pos as int, c, n as nat)) by {
            match sp_records(data@, pos as int, c, n as nat) {
                Parsed::Done { v, end } => {
                    assert(record_views(recs@) + v =~= v);
                },
                Parsed::More { need } => {
                },
                Parsed::Fail { err } => {
                },
            }
        }
    }
    while done < n
        invariant
            pos <= cur <= data@.len(),
            done <= n,
            sp_records(data@, pos as int, c, n as nat) == pres_append(
                record_views(recs@),
                sp_records(data@, cur as int, c, (n - done) as nat),
            ),
        decreases n - done,
    {
        proof {
            lemma_sp_records_step(data@, cur as int, c, (n - done) as nat);
        }
        match scan_record(data, cur, c) {
            Ok((q, rec)) => {
                proof {
                    lemma_pres_append_assoc(
                        record_views(recs@),
                        seq![rec@],
                        sp_records(data@, q as int, c, (n - done - 1) as nat),
                    );
                    lemma_map_values_push(recs@, |x: AVLRecord| x@, rec);
                    assert(record_views(recs@) + seq![rec@] =~= record_views(recs@.push(rec)));
                }
                recs.push(rec);
                cur = q;
                done = done + 1;
            },
            Err(e) => {
                return Err(e);
            },
        }
    }
    proof {
        lemma_pres_append_empty(
            record_views(recs@),
            sp_records(data@, cur as int, c, (n - done) as nat),
        );
    }
    Ok((cur, recs))
}


// ------------------------------------------------------------------
// Command responses and frame payloads
// ------------------------------------------------------------------

spec fn string_views(ss: Seq<String>) -> Seq<Seq<char>> {
    ss.map_values(|x: String| x@)
}

fn scan_response(data: &[u8], pos: usize) -> (r: Result<(usize, String), DecodeError>)
    requires
        pos <= data@.len(),
    ensures
        match sp_response(data@, pos as int) {
            Parsed::Done { v, end } => r matches Ok((q, x)) && x@ == v && q as int == end && end
                <= data@.len() && pos <= q,
            Parsed::More { need } => r matches Err(DecodeError::Incomplete(nd)) && nd as int
                == need,
            Parsed::Fail { err } => false,
        },
{
    let (q, n) = match take_be32(data, pos) {
        Ok(x) => x,
        Err(e) => { return Err(e); },
    };
    let (q2, bs) = match take_bytes(data, q, n as usize) {
        Ok(x) => x,
        Err(e) => { return Err(e); },
    };
    Ok((q2, string_of_bytes(&bs)))
}

fn scan_responses(data: &[u8], pos: usize, n: u8) -> (r: Result<(usize, Vec<String>), DecodeError>)
    requires
        pos <= data@.len(),
    ensures
        match sp_responses(data@, pos as int, n as nat) {
            Parsed::Done { v, end } => r matches Ok((q, x)) && string_views(x@) == v && q as int
                == end && end <= data@.len() && pos <= q,
            Parsed::More { need } => r matches Err(DecodeError::Incomplete(nd)) && nd as int
                == need,
            Parsed::Fail { err } => false,
        },
{
    let mut rs: Vec<String> = Vec::new();
    let mut cur: usize = pos;
    let mut done: u8 = 0;
    proof {
        assert(string_views(rs@) =~= Seq::<Seq<char>>::empty());
        assert(pres_append(string_views(rs@), sp_responses(data@, pos as int, n as nat))
            == sp_responses(data@, pos as int, n as nat)) by {
            match sp_responses(data@, pos as int, n as nat) {
                Parsed::Done { v, end } => {
                    assert(string_views(rs@) + v =~= v);
                },
                Parsed::More { need } => {
                },
                Parsed::Fail { err } => {
                },
            }
        }
    }
    while done < n
        invariant
            pos <= cur <= data@.len(),
            done <= n,
            sp_responses(data@, pos as int, n as nat) == pres_append(
                string_views(rs@),
                sp_responses(data@, cur as int, (n - done) as nat),
            ),
        decreases n - done,
    {
        proof {
            lemma_sp_responses_step(data@, cur as int, (n - done) as nat);
        }
        match scan_response(data, cur) {
            Ok((q, resp)) => {
                proof {
                    lemma_pres_append_assoc(
                        string_views(rs@),
                        seq![resp@],
                        sp_responses(data@, q as int, (n - done - 1) as nat),
                    );
                    lemma_map_values_push(rs@, |x: String| x@, resp);
                    assert(string_views(rs@) + seq![resp@] =~= string_views(rs@.push(resp)));
                }
                rs.push(resp);
                cur = q;
                done = done + 1;
            },
            Err(e) => {
                return Err(e);
            },
        }
    }
    proof {
        lemma_pres_append_empty(
            string_views(rs@),
            sp_responses(data@, cur as int, (n - done) as nat),
        );
    }
    Ok((cur, rs))
}

/// A parsed frame payload before its checksum is attached.
enum ScannedPayload {
    Telemetry(Codec, Vec<AVLRecord>),
    Command(Codec, Vec<String>),
}

impl View for ScannedPayload {
    type V = PayloadView;

    closed spec fn view(&self) -> PayloadView {
        match self {
            ScannedPayload::Telemetry(c, recs) => PayloadView::Telemetry {
                codec: *c,
                records: record_views(recs@),
            },
            ScannedPayload::Command(c, rs) => PayloadView::Command {
                codec: *c,
                responses: string_views(rs@),
            },
        }
    }
}

fn parse_payload(p: &[u8]) -> (r: Result<(usize, ScannedPayload), DecodeError>)
    ensures
        match sp_payload(p@) {
            Parsed::Done { v, end } => r matches Ok((q, x)) && x@ == v && q as int == end && end
                <= p@.len(),
            Parsed::More { need } => r matches Err(DecodeError::Incomplete(nd)) && nd as int
                == need,
            Parsed::Fail { err } => r matches Err(e) && e == err && !(err is Incomplete),
        },
{
    let (q0, cb) = match take_u8(p, 0) {
        Ok(x) => x,
        Err(e) => { return Err(e); },
    };
    let c = match Codec::from_wire(cb) {
        Some(c) => c,
        None => { return Err(DecodeError::UnrecognizedCodec); },
    };
    if c.is_telemetry() {
        let (q1, n) = match take_u8(p, q0) {
            Ok(x) => x,
            Err(e) => { return Err(e); },
        };
        let (q2, recs) = match scan_records(p, q1, c, n) {
            Ok(x) => x,
            Err(e) => { return Err(e); },
        };
        let (q3, t) = match take_u8(p, q2) {
            Ok(x) => x,
            Err(e) => { return Err(e); },
        };
        if t as usize != recs.len() {
            return Err(DecodeError::CountMismatch);
        }
        Ok((q3, ScannedPayload::Telemetry(c, recs)))
    } else if c == Codec::C12 {
        let (q1, qty) = match take_u8(p, q0) {
            Ok(x) => x,
            Err(e) => { return Err(e); },
        };
        let (q2, _tag) = match take_u8(p, q1) {
            Ok(x) => x,
            Err(e) => { return Err(e); },
        };
        let (q3, rs) = match scan_responses(p, q2, qty) {
            Ok(x) => x,
            Err(e) => { return Err(e); },
        };
        let (q4, t) = match take_u8(p, q3) {
            Ok(x) => x,
            Err(e) => { return Err(e); },
        };
        if t as usize != rs.len() {
            return Err(DecodeError::CountMismatch);
        }
        Ok((q4, ScannedPayload::Command(c, rs)))
    } else {
        Err(DecodeError::UnrecognizedCodec)
    }
}

// ------------------------------------------------------------------
// Public decode entry points
// ------------------------------------------------------------------

/// Parse an imei
///
/// Reads a 2-byte big-endian length, then that many bytes as the single-byte
/// characters of the identifier string. On success the first component is
/// the number of bytes consumed.
pub fn imei(input: &[u8]) -> (r: Result<(usize, String), DecodeError>)
    ensures
        match sp_imei(input@, 0) {
            Parsed::Done { v, end } => r matches Ok((q, x)) && x@ == v && q as int == end && end
                <= input@.len(),
            Parsed::More { need } => r matches Err(DecodeError::Incomplete(nd)) && nd as int
                == need,
            Parsed::Fail { err } => false,
        },
{
    let (q, n) = match take_be16(input, 0) {
        Ok(x) => x,
        Err(e) => { return Err(e); },
    };
    let (q2, bs) = match take_bytes(input, q, n as usize) {
        Ok(x) => x,
        Err(e) => { return Err(e); },
    };
    Ok((q2, string_of_bytes(&bs)))
}

/// Parse a TCP teltonika frame
///
/// It does 3 main error checks:
/// - Preamble is all zeroes
/// - Both record or response counts coincide
/// - Computes the checksum and verifies it against the one sent
///
/// On success the first component is the number of bytes consumed.
pub fn tcp_frame(input: &[u8]) -> (r: Result<(usize, TeltonikaFrame), DecodeError>)
    ensures
        match sp_frame(input@) {
            Parsed::Done { v, end } => r matches Ok((q, f)) && f@ == v && q as int == end && end
                <= input@.len(),
            Parsed::More { need } => r matches Err(DecodeError::Incomplete(nd)) && nd as int
                == need,
            Parsed::Fail { err } => r matches Err(e) && e == err && !(err is Incomplete),
        },
{
    let len = input.len();
    if len < 4 {
        return Err(DecodeError::Incomplete(4 - len));
    }
    if !(input[0] == 0 && input[1] == 0 && input[2] == 0 && input[3] == 0) {
        return Err(DecodeError::InvalidPreamble);
    }
    if len < 8 {
        return Err(DecodeError::Incomplete(8 - len));
    }
    let (_q, l32) = match take_be32(input, 4) {
        Ok(x) => x,
        Err(e) => { return Err(e); },
    };
    let l = l32 as usize;
    if len - 8 < l {
        return Err(DecodeError::Incomplete(l - (len - 8)));
    }
    let payload = slice_subrange(input, 8, 8 + l);
    let crc_calc = crc16(payload);
    let (_pe, pv) = match parse_payload(payload) {
        Ok(x) => x,
        Err(e) => { return Err(e); },
    };
    if len - (8 + l) < 4 {
        return Err(DecodeError::Incomplete(4 - (len - (8 + l))));
    }
    let (qc, crc_given) = match take_be32(input, 8 + l) {
        Ok(x) => x,
        Err(e) => { return Err(e); },
    };
    if crc_given != crc_calc as u32 {
        return Err(DecodeError::ChecksumMismatch);
    }
    match pv {
        ScannedPayload::Telemetry(c, recs) => Ok((
            qc,
            TeltonikaFrame::AVL(AVLFrame { codec: c, records: recs, crc16: crc_given }),
        )),
        ScannedPayload::Command(c, rs) => Ok((
            qc,
            TeltonikaFrame::GPRS(
                GPRSFrame { codec: c, command_responses: rs, crc16: crc_given },
            ),
        )),
    }
}

/// The older name of [`tcp_frame`], kept for callers of earlier releases.
pub fn tcp_packet(input: &[u8]) -> (r: Result<(usize, TeltonikaFrame), DecodeError>)
    ensures
        match sp_frame(input@) {
            Parsed::Done { v, end } => r matches Ok((q, f)) && f@ == v && q as int == end && end
                <= input@.len(),
            Parsed::More { need } => r matches Err(DecodeError::Incomplete(nd)) && nd as int
                == need,
            Parsed::Fail { err } => r matches Err(e) && e == err && !(err is Incomplete),
        },
{
    tcp_frame(input)
}

fn parse_datagram_body(p: &[u8]) -> (r: Result<(usize, AVLDatagram), DecodeError>)
    ensures
        match sp_datagram_body(p@) {
            Parsed::Done { v, end } => r matches Ok((q, x)) && x@ == v && q as int == end && end
                <= p@.len(),
            Parsed::More { need } => r matches Err(DecodeError::Incomplete(nd)) && nd as int
                == need,
            Parsed::Fail { err } => r matches Err(e) && e == err && !(err is Incomplete),
        },
{
    let (q0, packet_id) = match take_be16(p, 0) {
        Ok(x) => x,
        Err(e) => { return Err(e); },
    };
    let (q1, marker) = match take_u8(p, q0) {
        Ok(x) => x,
        Err(e) => { return Err(e); },
    };
    if marker != 0x01 {
        return Err(DecodeError::InvalidPreamble);
    }
    let (q2, avl_packet_id) = match take_u8(p, q1) {
        Ok(x) => x,
        Err(e) => { return Err(e); },
    };
    let (q3, n16) = match take_be16(p, q2) {
        Ok(x) => x,
        Err(e) => { return Err(e); },
    };
    let (q4, ibs) = match take_bytes(p, q3, n16 as usize) {
        Ok(x) => x,
        Err(e) => { return Err(e); },
    };
    let imei_string = string_of_bytes(&ibs);
    let (q5, cb) = match take_u8(p, q4) {
        Ok(x) => x,
        Err(e) => { return Err(e); },
    };
    let c = match Codec::from_wire(cb) {
        Some(c) => c,
        None => { return Err(DecodeError::UnrecognizedCodec); },
    };
    if !c.is_telemetry() {
        return Err(DecodeError::UnrecognizedCodec);
    }
    let (q6, n) = match take_u8(p, q5) {
        Ok(x) => x,
        Err(e) => { return Err(e); },
    };
    let (q7, recs) = match scan_records(p, q6, c, n) {
        Ok(x) => x,
        Err(e) => { return Err(e); },
    };
    let (q8, t) = match take_u8(p, q7) {
        Ok(x) => x,
        Err(e) => { return Err(e); },
    };
    if t as usize != recs.len() {
        return Err(DecodeError::CountMismatch);
    }
    Ok((
        q8,
        AVLDatagram { packet_id, avl_packet_id, imei: imei_string, codec: c, records: recs },
    ))
}

/// Parse an UDP teltonika datagram
///
/// It checks the record counts coincide and parses the whole UDP channel.
/// On success the first component is the number of bytes consumed: the
/// 2-byte length prefix plus the length it declares.
pub fn udp_datagram(input: &[u8]) -> (r: Result<(usize, AVLDatagram), DecodeError>)
    ensures
        match sp_datagram(input@) {
            Parsed::Done { v, end } => r matches Ok((q, x)) && x@ == v && q as int == end && end
                <= input@.len(),
            Parsed::More { need } => r matches Err(DecodeError::Incomplete(nd)) && nd as int
                == need,
            Parsed::Fail { err } => r matches Err(e) && e == err && !(err is Incomplete),
        },
{
    let len = input.len();
    if len < 2 {
        return Err(DecodeError::Incomplete(2 - len));
    }
    let (_q, l16) = match take_be16(input, 0) {
        Ok(x) => x,
        Err(e) => { return Err(e); },
    };
    let l = l16 as usize;
    if len - 2 < l {
        return Err(DecodeError::Incomplete(l - (len - 2)));
    }
    let pkt = slice_subrange(input, 2, 2 + l);
    match parse_datagram_body(pkt) {
        Ok((_q2, d)) => Ok((2 + l, d)),
        Err(e) => Err(e),
    }
}

/// Parse a response from a command
///
/// Takes the handshake bytes of a command response and returns the raw
/// response bytes. On success the first component is the number of bytes
/// consumed.
pub fn command_response(input: &[u8]) -> (r: Result<(usize, Vec<u8>), DecodeError>)
    ensures
        match sp_command_response(input@) {
            Parsed::Done { v, end } => r matches Ok((q, x)) && x@ == v && q as int == end && end
                <= input@.len(),
            Parsed::More { need } => r matches Err(DecodeError::Incomplete(nd)) && nd as int
                == need,
            Parsed::Fail { err } => r matches Err(e) && e == err && !(err is Incomplete),
        },
{
    let len = input.len();
    if len < 4 {
        return Err(DecodeError::Incomplete(4 - len));
    }
    if !(input[0] == 0 && input[1] == 0 && input[2] == 0 && input[3] == 0) {
        return Err(DecodeError::InvalidPreamble);
    }
    if len < 8 {
        return Err(DecodeError::Incomplete(8 - len));
    }
    let (_q, l32) = match take_be32(input, 4) {
        Ok(x) => x,
        Err(e) => { return Err(e); },
    };
    let (q1, cb) = match take_u8(input, 8) {
        Ok(x) => x,
        Err(e) => { return Err(e); },
    };
    if cb != 0x0C {
        return Err(DecodeError::UnrecognizedCodec);
    }
    let (q2, _qty) = match take_u8(input, q1) {
        Ok(x) => x,
        Err(e) => { return Err(e); },
    };
    let (q3, tag) = match take_u8(input, q2) {
        Ok(x) => x,
        Err(e) => { return Err(e); },
    };
    if tag != 0x06 {
        return Err(DecodeError::UnrecognizedEnumValue);
    }
    let (q4, rlen) = match take_be32(input, q3) {
        Ok(x) => x,
        Err(e) => { return Err(e); },
    };
    let (q5, resp) = match take_bytes(input, q4, rlen as usize) {
        Ok(x) => x,
        Err(e) => { return Err(e); },
    };
    let (q6, _qty2) = match take_u8(input, q5) {
        Ok(x) => x,
        Err(e) => { return Err(e); },
    };
    let l = l32 as usize;
    if len - 8 < l {
        return Err(DecodeError::Incomplete(l - (len - 8)));
    }
    let span = slice_subrange(input, 8, 8 + l);
    let crc_calc = crc16(span);
    let (q7, crc_given) = match take_be32(input, q6) {
        Ok(x) => x,
        Err(e) => { return Err(e); },
    };
    if crc_given != crc_calc as u32 {
        return Err(DecodeError::ChecksumMismatch);
    }
    Ok((q7, resp))
}

} // verus!
