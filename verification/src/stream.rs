//! The stream side: a wrapper that owns a transport object and its buffer
//! capacity hints, and the reassembly state machine that turns arbitrarily
//! fragmented reads into exactly one decoded unit.
//!
//! The reassembler holds the accumulated bytes and decides, after each
//! chunk, whether the unit is complete, more bytes are needed, or the
//! attempt has failed terminally. Performing the reads themselves is the
//! caller's business: the crate never touches a socket or file.

use vstd::prelude::*;

use crate::format::{sp_datagram, sp_frame, sp_imei, Parsed};
use crate::parser::{imei, tcp_frame, udp_datagram};
use crate::protocol::{AVLDatagram, DecodeError, TeltonikaFrame};

verus! {

pub const DEFAULT_IMEI_BUF_CAPACITY: usize = 128;

pub const DEFAULT_PACKET_BUF_CAPACITY: usize = 2048;

/// A wrapper around a transport object for reading and writing device
/// data. The crate only owns the object and the two buffer capacity hints;
/// the read and write loops around the codec belong to the caller.
pub struct TeltonikaStream<S> {
    inner: S,
    imei_buf_capacity: usize,
    packet_buf_capacity: usize,
}

impl<S> TeltonikaStream<S> {
    pub closed spec fn spec_inner(&self) -> S {
        self.inner
    }

    pub closed spec fn spec_imei_buf_capacity(&self) -> usize {
        self.imei_buf_capacity
    }

    pub closed spec fn spec_packet_buf_capacity(&self) -> usize {
        self.packet_buf_capacity
    }

    /// Creates a new [`TeltonikaStream`] from an existing transport object.
    pub fn new(inner: S) -> (s: Self)
        ensures
            s.spec_inner() == inner,
            s.spec_imei_buf_capacity() == DEFAULT_IMEI_BUF_CAPACITY,
            s.spec_packet_buf_capacity() == DEFAULT_PACKET_BUF_CAPACITY,
    {
        TeltonikaStream {
            inner,
            imei_buf_capacity: DEFAULT_IMEI_BUF_CAPACITY,
            packet_buf_capacity: DEFAULT_PACKET_BUF_CAPACITY,
        }
    }

    /// Creates a new [`TeltonikaStream`] with custom buffer capacities.
    pub fn with_capacity(inner: S, imei_buf_capacity: usize, packet_buf_capacity: usize) -> (s:
        Self)
        ensures
            s.spec_inner() == inner,
            s.spec_imei_buf_capacity() == imei_buf_capacity,
            s.spec_packet_buf_capacity() == packet_buf_capacity,
    {
        TeltonikaStream { inner, imei_buf_capacity, packet_buf_capacity }
    }

    pub fn into_inner(self) -> (r: S)
        ensures
            r == self.spec_inner(),
    {
        self.inner
    }

    pub fn inner(&self) -> (r: &S)
        ensures
            *r == self.spec_inner(),
    {
        &self.inner
    }

    pub fn inner_mut(&mut self) -> (r: &mut S)
        ensures
            *r == old(self).spec_inner(),
            *final(r) == final(self).spec_inner(),
            final(self).spec_imei_buf_capacity() == old(self).spec_imei_buf_capacity(),
            final(self).spec_packet_buf_capacity() == old(self).spec_packet_buf_capacity(),
    {
        &mut self.inner
    }

    /// The buffer capacity hint for identifier reads.
    pub fn imei_buf_capacity(&self) -> (r: usize)
        ensures
            r == self.spec_imei_buf_capacity(),
    {
        self.imei_buf_capacity
    }

    /// The buffer capacity hint for frame and datagram reads.
    pub fn packet_buf_capacity(&self) -> (r: usize)
        ensures
            r == self.spec_packet_buf_capacity(),
    {
        self.packet_buf_capacity
    }
}

/// The state of one reassembly: accumulating is the only state that accepts
/// more bytes; the other two are terminal.
#[derive(Debug, PartialEq, Eq, Copy, Clone, Structural)]
pub enum ReassemblyState {
    Accumulating,
    Complete,
    Failed,
}

/// What one fed chunk led to.
#[derive(Debug, PartialEq)]
pub enum FeedOutcome<T> {
    Complete(T),
    NeedMore,
    Failed(DecodeError),
}

/// The reassembly state machine for one decoded unit: an append-only byte
/// buffer and the state. Each `feed_*` call appends one chunk, re-attempts
/// the decode over the whole buffer, and either completes, asks for more
/// bytes, or fails terminally. Bytes past the decoded unit are discarded
/// with the reassembler: one instance decodes exactly one unit.
///
/// A zero-length chunk denotes end of stream. Whether that closes the
/// connection is the configurable policy `close_on_empty`: identifier and
/// datagram reads close, while frame reads may treat it as a valid empty
/// command response and keep decoding.
pub struct Reassembler {
    buf: Vec<u8>,
    state: ReassemblyState,
    close_on_empty: bool,
}

impl Reassembler {
    /// The bytes accumulated so far.
    pub closed spec fn buffered(&self) -> Seq<u8> {
        self.buf@
    }

    pub closed spec fn spec_state(&self) -> ReassemblyState {
        self.state
    }

    pub closed spec fn closes_on_empty_read(&self) -> bool {
        self.close_on_empty
    }

    pub open spec fn accumulating(&self) -> bool {
        self.spec_state() == ReassemblyState::Accumulating
    }

    pub fn new(close_on_empty: bool) -> (r: Self)
        ensures
            r.buffered() == Seq::<u8>::empty(),
            r.accumulating(),
            r.closes_on_empty_read() == close_on_empty,
    {
        Reassembler { buf: Vec::new(), state: ReassemblyState::Accumulating, close_on_empty }
    }

    /// As [`Reassembler::new`], with an initial buffer allocation hint. The
    /// hint sizes the allocation only; it never caps the buffer.
    pub fn with_buffer_capacity(close_on_empty: bool, capacity: usize) -> (r: Self)
        ensures
            r.buffered() == Seq::<u8>::empty(),
            r.accumulating(),
            r.closes_on_empty_read() == close_on_empty,
    {
        Reassembler {
            buf: Vec::with_capacity(capacity),
            state: ReassemblyState::Accumulating,
            close_on_empty,
        }
    }

    pub fn state(&self) -> (r: ReassemblyState)
        ensures
            r == self.spec_state(),
    {
        self.state
    }

    /// Feeds one chunk towards a connection-oriented frame.
    pub fn feed_frame(&mut self, chunk: &[u8]) -> (r: FeedOutcome<TeltonikaFrame>)
        requires
            old(self).accumulating(),
        ensures
            final(self).closes_on_empty_read() == old(self).closes_on_empty_read(),
            ({
                let closed_now = chunk@.len() == 0 && old(self).closes_on_empty_read();
                let b = old(self).buffered() + chunk@;
                if closed_now {
                    &&& r matches FeedOutcome::Failed(e) && e == DecodeError::ConnectionClosed
                    &&& final(self).buffered() == old(self).buffered()
                    &&& final(self).spec_state() == ReassemblyState::Failed
                } else {
                    &&& final(self).buffered() == b
                    &&& match sp_frame(b) {
                        Parsed::Done { v, end } => {
                            &&& r matches FeedOutcome::Complete(f) && f@ == v
                            &&& final(self).spec_state() == ReassemblyState::Complete
                        },
                        Parsed::More { need } => {
                            &&& r is NeedMore
                            &&& final(self).spec_state() == ReassemblyState::Accumulating
                        },
                        Parsed::Fail { err } => {
                            &&& r matches FeedOutcome::Failed(e) && e == err
                            &&& final(self).spec_state() == ReassemblyState::Failed
                        },
                    }
                }
            }),
    {
        if chunk.len() == 0 && self.close_on_empty {
            self.state = ReassemblyState::Failed;
            return FeedOutcome::Failed(DecodeError::ConnectionClosed);
        }
        self.buf.extend_from_slice(chunk);
        proof {
            assert(self.buf@ == old(self).buffered() + chunk@);
        }
        match tcp_frame(self.buf.as_slice()) {
            Ok((_consumed, frame)) => {
                self.state = ReassemblyState::Complete;
                FeedOutcome::Complete(frame)
            },
            Err(DecodeError::Incomplete(_)) => FeedOutcome::NeedMore,
            Err(e) => {
                self.state = ReassemblyState::Failed;
                FeedOutcome::Failed(e)
            },
        }
    }

    /// Feeds one chunk towards a device identifier.
    pub fn feed_imei(&mut self, chunk: &[u8]) -> (r: FeedOutcome<String>)
        requires
            old(self).accumulating(),
        ensures
            final(self).closes_on_empty_read() == old(self).closes_on_empty_read(),
            ({
                let closed_now = chunk@.len() == 0 && old(self).closes_on_empty_read();
                let b = old(self).buffered() + chunk@;
                if closed_now {
                    &&& r matches FeedOutcome::Failed(e) && e == DecodeError::ConnectionClosed
                    &&& final(self).buffered() == old(self).buffered()
                    &&& final(self).spec_state() == ReassemblyState::Failed
                } else {
                    &&& final(self).buffered() == b
                    &&& match sp_imei(b, 0) {
                        Parsed::Done { v, end } => {
                            &&& r matches FeedOutcome::Complete(s) && s@ == v
                            &&& final(self).spec_state() == ReassemblyState::Complete
                        },
                        Parsed::More { need } => {
                            &&& r is NeedMore
                            &&& final(self).spec_state() == ReassemblyState::Accumulating
                        },
                        Parsed::Fail { err } => false,
                    }
                }
            }),
    {
        if chunk.len() == 0 && self.close_on_empty {
            self.state = ReassemblyState::Failed;
            return FeedOutcome::Failed(DecodeError::ConnectionClosed);
        }
        self.buf.extend_from_slice(chunk);
        proof {
            assert(self.buf@ == old(self).buffered() + chunk@);
        }
        match imei(self.buf.as_slice()) {
            Ok((_consumed, s)) => {
                self.state = ReassemblyState::Complete;
                FeedOutcome::Complete(s)
            },
            Err(DecodeError::Incomplete(_)) => FeedOutcome::NeedMore,
            Err(e) => {
                self.state = ReassemblyState::Failed;
                FeedOutcome::Failed(e)
            },
        }
    }

    /// Feeds one chunk towards a connectionless datagram.
    pub fn feed_datagram(&mut self, chunk: &[u8]) -> (r: FeedOutcome<AVLDatagram>)
        requires
            old(self).accumulating(),
        ensures
            final(self).closes_on_empty_read() == old(self).closes_on_empty_read(),
            ({
                let closed_now = chunk@.len() == 0 && old(self).closes_on_empty_read();
                let b = old(self).buffered() + chunk@;
                if closed_now {
                    &&& r matches FeedOutcome::Failed(e) && e == DecodeError::ConnectionClosed
                    &&& final(self).buffered() == old(self).buffered()
                    &&& final(self).spec_state() == ReassemblyState::Failed
                } else {
                    &&& final(self).buffered() == b
                    &&& match sp_datagram(b) {
                        Parsed::Done { v, end } => {
                            &&& r matches FeedOutcome::Complete(d) && d@ == v
                            &&& final(self).spec_state() == ReassemblyState::Complete
                        },
                        Parsed::More { need } => {
                            &&& r is NeedMore
                            &&& final(self).spec_state() == ReassemblyState::Accumulating
                        },
                        Parsed::Fail { err } => {
                            &&& r matches FeedOutcome::Failed(e) && e == err
                            &&& final(self).spec_state() == ReassemblyState::Failed
                        },
                    }
                }
            }),
    {
        if chunk.len() == 0 && self.close_on_empty {
            self.state = ReassemblyState::Failed;
            return FeedOutcome::Failed(DecodeError::ConnectionClosed);
        }
        self.buf.extend_from_slice(chunk);
        proof {
            assert(self.buf@ == old(self).buffered() + chunk@);
        }
        match udp_datagram(self.buf.as_slice()) {
            Ok((_consumed, d)) => {
                self.state = ReassemblyState::Complete;
                FeedOutcome::Complete(d)
            },
            Err(DecodeError::Incomplete(_)) => FeedOutcome::NeedMore,
            Err(e) => {
                self.state = ReassemblyState::Failed;
                FeedOutcome::Failed(e)
            },
        }
    }
}

} // verus!
