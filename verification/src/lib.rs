//! Decoder and encoder for the binary wire protocol of a family of vehicle
//! telematics devices: a length-prefixed, checksum-verified frame format
//! whose field widths depend on a leading codec byte, together with an
//! incremental stream-reassembly state machine.

use vstd::prelude::*;

pub mod encode;
pub mod format;
pub mod laws;
pub mod parser;
pub mod stream;
pub mod trusted;

mod protocol;

pub use protocol::{
    AVLDatagram, AVLEventIO, AVLEventIOValue, AVLFrame, AVLRecord, AvlFrameView, Codec,
    DatagramView, DecodeError, EventGenerationCause, EventValueView, EventView, FrameView,
    GPRSFrame, GprsFrameView, Priority, RecordView, TeltonikaFrame, spec_cause_from_byte,
    spec_codec_byte, spec_codec_from_byte, spec_count_width, spec_id_width, spec_is_telemetry,
    spec_priority_from_byte,
};

verus! {

/// The checksum register after one shift round: shift right, folding the
/// polynomial 0xA001 back in when the low bit was set.
pub open spec fn spec_crc16_shift(crc: u16) -> u16 {
    if crc & 1 == 1 {
        (crc >> 1) ^ 0xA001
    } else {
        crc >> 1
    }
}

/// The checksum register after `rounds` shift rounds.
pub open spec fn spec_crc16_rounds(crc: u16, rounds: nat) -> u16
    decreases rounds,
{
    if rounds == 0 {
        crc
    } else {
        spec_crc16_rounds(spec_crc16_shift(crc), (rounds - 1) as nat)
    }
}

/// The checksum register after folding in one input byte.
pub open spec fn spec_crc16_step(crc: u16, byte: u8) -> u16 {
    spec_crc16_rounds(crc ^ (byte as u16), 8)
}

/// The IBM/CRC16 checksum (polynomial 0xA001, initial register 0) of a byte
/// sequence. A total function: `spec_crc16(Seq::empty()) == 0`.
pub open spec fn spec_crc16(data: Seq<u8>) -> u16
    decreases data.len(),
{
    if data.len() == 0 {
        0
    } else {
        spec_crc16_step(spec_crc16(data.drop_last()), data.last())
    }
}

/// IBM CRC16 Algorithm
///
/// Uses 0xA001 polynomial
pub fn crc16(data: &[u8]) -> (crc: u16)
    ensures
        crc == spec_crc16(data@),
{
    let mut crc: u16 = 0;
    let mut i: usize = 0;
    while i < data.len()
        invariant
            i <= data@.len(),
            crc == spec_crc16(data@.subrange(0, i as int)),
        decreases data@.len() - i,
    {
        let byte = data[i];
        crc = crc ^ (byte as u16);
        let mut bit: usize = 0;
        while bit < 8
            invariant
                bit <= 8,
                spec_crc16_rounds(crc, (8 - bit) as nat) == spec_crc16_step(
                    spec_crc16(data@.subrange(0, i as int)),
                    data@[i as int],
                ),
            decreases 8 - bit,
        {
            let ghost pre = crc;
            let carry = crc & 1;
            proof {
                assert(crc & 1 == 0 || crc & 1 == 1) by (bit_vector);
            }
            crc = crc >> 1;
            if carry != 0 {
                crc = crc ^ 0xA001;
            }
            proof {
                assert(crc == spec_crc16_shift(pre));
                assert(spec_crc16_rounds(pre, (8 - bit) as nat) == spec_crc16_rounds(
                    spec_crc16_shift(pre),
                    (8 - bit - 1) as nat,
                ));
            }
            bit += 1;
        }
        proof {
            assert(data@.subrange(0, i + 1).drop_last() =~= data@.subrange(0, i as int));
            assert(data@.subrange(0, i + 1).last() == data@[i as int]);
        }
        i += 1;
    }
    proof {
        assert(data@.subrange(0, data@.len() as int) =~= data@);
    }
    crc
}

} // verus!
