//! Data model for the device protocol: codec variants, priorities, event
//! generation causes, IO events, records, frames and datagrams, together
//! with their mathematical views and the wire-byte bijections.

use vstd::prelude::*;

verus! {

/// The codec variant of a frame or datagram.
///
/// The first three are the telemetry family, the last three the command
/// family (of which only `C12` carries a payload shape in this protocol).
#[derive(Debug, PartialEq, Eq, Copy, Clone, Structural)]
pub enum Codec {
    C8,
    C8Ext,
    C16,
    C12,
    C13,
    C14,
}

/// Record priority: how urgently the device reports the record.
#[derive(Debug, PartialEq, Eq, Copy, Clone, Structural)]
pub enum Priority {
    Low,
    High,
    Panic,
}

/// The cause of an event trigger, present only on `C16` records.
#[derive(Debug, PartialEq, Eq, Copy, Clone, Structural)]
pub enum EventGenerationCause {
    OnExit,
    OnEntrance,
    OnBoth,
    Reserved,
    Hysteresis,
    OnChange,
    Eventual,
    Periodical,
}

/// The error kinds of decoding, and of the stream reassembler.
///
/// `Incomplete` is the only retry-safe kind: it carries the minimum number
/// of additional bytes needed. Every other kind is terminal for the decode
/// attempt. `InvalidPreamble` also covers the datagram's fixed marker byte;
/// `UnrecognizedEnumValue` covers priority, generation cause and the
/// command-response type tag.
#[derive(Debug, PartialEq, Eq, Copy, Clone, Structural)]
pub enum DecodeError {
    Incomplete(usize),
    InvalidPreamble,
    UnrecognizedCodec,
    UnrecognizedEnumValue,
    CountMismatch,
    ChecksumMismatch,
    InvalidTimestamp,
    ConnectionClosed,
}

/// The raw value of one IO event.
///
/// The `Variable` form occurs only under the extended telemetry codec.
#[derive(Debug, PartialEq, Clone)]
pub enum AVLEventIOValue {
    U8(u8),
    U16(u16),
    U32(u32),
    U64(u64),
    Variable(Vec<u8>),
}

/// One IO event: an opaque identifier and its raw value.
#[derive(Debug, PartialEq, Clone)]
pub struct AVLEventIO {
    pub id: u16,
    pub value: AVLEventIOValue,
}

/// One timestamped location/status sample.
///
/// `timestamp` is in milliseconds since the Unix epoch; decoding checks that
/// it denotes a valid calendar instant. `longitude` and `latitude` are the
/// raw signed 32-bit wire values, in units of ten-millionths of a decimal
/// degree (two's-complement convention).
#[derive(Debug, PartialEq, Clone)]
pub struct AVLRecord {
    pub timestamp: u64,
    pub priority: Priority,
    pub longitude: i32,
    pub latitude: i32,
    pub altitude: u16,
    pub angle: u16,
    pub satellites: u8,
    pub speed: u16,
    pub trigger_event_id: u16,
    pub generation_type: Option<EventGenerationCause>,
    pub io_events: Vec<AVLEventIO>,
}

/// A checksum-verified telemetry frame.
#[derive(Debug, PartialEq, Clone)]
pub struct AVLFrame {
    pub codec: Codec,
    pub records: Vec<AVLRecord>,
    pub crc16: u32,
}

/// A checksum-verified command-response frame.
#[derive(Debug, PartialEq, Clone)]
pub struct GPRSFrame {
    pub codec: Codec,
    pub command_responses: Vec<String>,
    pub crc16: u32,
}

/// A decoded frame, tagged by which family the codec byte selected.
#[derive(Debug, PartialEq, Clone)]
pub enum TeltonikaFrame {
    AVL(AVLFrame),
    GPRS(GPRSFrame),
}

/// A telemetry datagram from the connectionless transport.
#[derive(Debug, PartialEq, Clone)]
pub struct AVLDatagram {
    pub packet_id: u16,
    pub avl_packet_id: u8,
    pub imei: String,
    pub codec: Codec,
    pub records: Vec<AVLRecord>,
}

// ------------------------------------------------------------------
// Mathematical views
// ------------------------------------------------------------------

pub ghost enum EventValueView {
    U8(u8),
    U16(u16),
    U32(u32),
    U64(u64),
    Variable(Seq<u8>),
}

pub ghost struct EventView {
    pub id: u16,
    pub value: EventValueView,
}

pub ghost struct RecordView {
    pub timestamp: u64,
    pub priority: Priority,
    pub longitude: i32,
    pub latitude: i32,
    pub altitude: u16,
    pub angle: u16,
    pub satellites: u8,
    pub speed: u16,
    pub trigger_event_id: u16,
    pub generation_type: Option<EventGenerationCause>,
    pub io_events: Seq<EventView>,
}

pub ghost struct AvlFrameView {
    pub codec: Codec,
    pub records: Seq<RecordView>,
    pub crc16: u32,
}

pub ghost struct GprsFrameView {
    pub codec: Codec,
    pub command_responses: Seq<Seq<char>>,
    pub crc16: u32,
}

pub ghost enum FrameView {
    AVL(AvlFrameView),
    GPRS(GprsFrameView),
}

pub ghost struct DatagramView {
    pub packet_id: u16,
    pub avl_packet_id: u8,
    pub imei: Seq<char>,
    pub codec: Codec,
    pub records: Seq<RecordView>,
}

impl View for AVLEventIOValue {
    type V = EventValueView;

    open spec fn view(&self) -> EventValueView {
        match self {
            AVLEventIOValue::U8(v) => EventValueView::U8(*v),
            AVLEventIOValue::U16(v) => EventValueView::U16(*v),
            AVLEventIOValue::U32(v) => EventValueView::U32(*v),
            AVLEventIOValue::U64(v) => EventValueView::U64(*v),
            AVLEventIOValue::Variable(v) => EventValueView::Variable(v@),
        }
    }
}

impl View for AVLEventIO {
    type V = EventView;

    open spec fn view(&self) -> EventView {
        EventView { id: self.id, value: self.value@ }
    }
}

impl View for AVLRecord {
    type V = RecordView;

    open spec fn view(&self) -> RecordView {
        RecordView {
            timestamp: self.timestamp,
            priority: self.priority,
            longitude: self.longitude,
            latitude: self.latitude,
            altitude: self.altitude,
            angle: self.angle,
            satellites: self.satellites,
            speed: self.speed,
            trigger_event_id: self.trigger_event_id,
            generation_type: self.generation_type,
            io_events: self.io_events@.map_values(|e: AVLEventIO| e@),
        }
    }
}

impl View for AVLFrame {
    type V = AvlFrameView;

    open spec fn view(&self) -> AvlFrameView {
        AvlFrameView {
            codec: self.codec,
            records: self.records@.map_values(|r: AVLRecord| r@),
            crc16: self.crc16,
        }
    }
}

impl View for GPRSFrame {
    type V = GprsFrameView;

    open spec fn view(&self) -> GprsFrameView {
        GprsFrameView {
            codec: self.codec,
            command_responses: self.command_responses@.map_values(|s: String| s@),
            crc16: self.crc16,
        }
    }
}

impl View for TeltonikaFrame {
    type V = FrameView;

    open spec fn view(&self) -> FrameView {
        match self {
            TeltonikaFrame::AVL(f) => FrameView::AVL(f@),
            TeltonikaFrame::GPRS(f) => FrameView::GPRS(f@),
        }
    }
}

impl View for AVLDatagram {
    type V = DatagramView;

    open spec fn view(&self) -> DatagramView {
        DatagramView {
            packet_id: self.packet_id,
            avl_packet_id: self.avl_packet_id,
            imei: self.imei@,
            codec: self.codec,
            records: self.records@.map_values(|r: AVLRecord| r@),
        }
    }
}

// ------------------------------------------------------------------
// Wire-byte bijections
// ------------------------------------------------------------------

/// The codec selected by a wire byte; `None` for an unrecognized byte.
pub open spec fn spec_codec_from_byte(b: u8) -> Option<Codec> {
    if b == 0x08 {
        Some(Codec::C8)
    } else if b == 0x8E {
        Some(Codec::C8Ext)
    } else if b == 0x10 {
        Some(Codec::C16)
    } else if b == 0x0C {
        Some(Codec::C12)
    } else if b == 0x0D {
        Some(Codec::C13)
    } else if b == 0x0E {
        Some(Codec::C14)
    } else {
        None
    }
}

/// The wire byte of a codec: the inverse of `spec_codec_from_byte`.
pub open spec fn spec_codec_byte(c: Codec) -> u8 {
    match c {
        Codec::C8 => 0x08,
        Codec::C8Ext => 0x8E,
        Codec::C16 => 0x10,
        Codec::C12 => 0x0C,
        Codec::C13 => 0x0D,
        Codec::C14 => 0x0E,
    }
}

/// Whether the codec belongs to the telemetry family.
pub open spec fn spec_is_telemetry(c: Codec) -> bool {
    c == Codec::C8 || c == Codec::C8Ext || c == Codec::C16
}

/// Width in bytes of event identifiers under a telemetry codec.
pub open spec fn spec_id_width(c: Codec) -> int {
    if c == Codec::C8 {
        1
    } else {
        2
    }
}

/// Width in bytes of event counts under a telemetry codec.
pub open spec fn spec_count_width(c: Codec) -> int {
    if c == Codec::C8Ext {
        2
    } else {
        1
    }
}

/// The priority selected by a wire byte; `None` for an unrecognized byte.
pub open spec fn spec_priority_from_byte(b: u8) -> Option<Priority> {
    if b == 0x00 {
        Some(Priority::Low)
    } else if b == 0x01 {
        Some(Priority::High)
    } else if b == 0x02 {
        Some(Priority::Panic)
    } else {
        None
    }
}

/// The generation cause selected by a wire byte; `None` for an unrecognized
/// byte.
pub open spec fn spec_cause_from_byte(b: u8) -> Option<EventGenerationCause> {
    if b == 0 {
        Some(EventGenerationCause::OnExit)
    } else if b == 1 {
        Some(EventGenerationCause::OnEntrance)
    } else if b == 2 {
        Some(EventGenerationCause::OnBoth)
    } else if b == 3 {
        Some(EventGenerationCause::Reserved)
    } else if b == 4 {
        Some(EventGenerationCause::Hysteresis)
    } else if b == 5 {
        Some(EventGenerationCause::OnChange)
    } else if b == 6 {
        Some(EventGenerationCause::Eventual)
    } else if b == 7 {
        Some(EventGenerationCause::Periodical)
    } else {
        None
    }
}

impl Codec {
    /// Fallible conversion from the wire byte: an unrecognized byte is a
    /// decode failure, never a default.
    pub fn from_wire(b: u8) -> (r: Option<Codec>)
        ensures
            r == spec_codec_from_byte(b),
    {
        match b {
            0x08 => Some(Codec::C8),
            0x8E => Some(Codec::C8Ext),
            0x10 => Some(Codec::C16),
            0x0C => Some(Codec::C12),
            0x0D => Some(Codec::C13),
            0x0E => Some(Codec::C14),
            _ => None,
        }
    }

    /// The byte that stands for this codec on the wire.
    pub fn wire_byte(self) -> (r: u8)
        ensures
            r == spec_codec_byte(self),
    {
        match self {
            Codec::C8 => 0x08,
            Codec::C8Ext => 0x8E,
            Codec::C16 => 0x10,
            Codec::C12 => 0x0C,
            Codec::C13 => 0x0D,
            Codec::C14 => 0x0E,
        }
    }

    /// Whether this codec belongs to the telemetry family.
    pub fn is_telemetry(self) -> (r: bool)
        ensures
            r == spec_is_telemetry(self),
    {
        matches!(self, Codec::C8 | Codec::C8Ext | Codec::C16)
    }
}

impl Priority {
    /// Fallible conversion from the wire byte.
    pub fn from_wire(b: u8) -> (r: Option<Priority>)
        ensures
            r == spec_priority_from_byte(b),
    {
        match b {
            0x00 => Some(Priority::Low),
            0x01 => Some(Priority::High),
            0x02 => Some(Priority::Panic),
            _ => None,
        }
    }
}

impl EventGenerationCause {
    /// Fallible conversion from the wire byte.
    pub fn from_wire(b: u8) -> (r: Option<EventGenerationCause>)
        ensures
            r == spec_cause_from_byte(b),
    {
        match b {
            0 => Some(EventGenerationCause::OnExit),
            1 => Some(EventGenerationCause::OnEntrance),
            2 => Some(EventGenerationCause::OnBoth),
            3 => Some(EventGenerationCause::Reserved),
            4 => Some(EventGenerationCause::Hysteresis),
            5 => Some(EventGenerationCause::OnChange),
            6 => Some(EventGenerationCause::Eventual),
            7 => Some(EventGenerationCause::Periodical),
            _ => None,
        }
    }
}

} // verus!
