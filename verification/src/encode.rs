//! Executable encoding: command frames and the acknowledgement byte
//! builders, each proved to produce exactly the bytes the specification
//! encoder in [`crate::format`] describes.

use vstd::prelude::*;

use vstd::string::StringSliceAdditionalSpecFns;

use crate::format::{
    be16_bytes, be32_bytes, bytes_of_chars, commands_frame, commands_payload, datagram_ack,
    encoded_command_list, frame_ack, lemma_encoded_list_prefix_len, lemma_encoded_list_snoc,
};
use crate::protocol::{AVLDatagram, TeltonikaFrame};
use crate::crc16;

verus! {

/// Appends the two big-endian bytes of a 16-bit value.
fn push_be16(out: &mut Vec<u8>, v: u16)
    ensures
        final(out)@ == old(out)@ + be16_bytes(v),
{
    out.push((v / 0x100) as u8);
    out.push((v % 0x100) as u8);
    proof {
        assert(out@ =~= old(out)@ + be16_bytes(v));
    }
}

/// Appends the four big-endian bytes of a 32-bit value.
fn push_be32(out: &mut Vec<u8>, v: u32)
    ensures
        final(out)@ == old(out)@ + be32_bytes(v),
{
    out.push((v / 0x1000000) as u8);
    out.push(((v / 0x10000) % 0x100) as u8);
    out.push(((v / 0x100) % 0x100) as u8);
    out.push((v % 0x100) as u8);
    proof {
        assert(out@ =~= old(out)@ + be32_bytes(v));
    }
}

/// Appends the bytes of an ASCII string, one byte per character.
fn push_ascii(out: &mut Vec<u8>, s: &str)
    requires
        vstd::string::is_ascii(s),
    ensures
        final(out)@ == old(out)@ + bytes_of_chars(s@),
{
    broadcast use vstd::string::is_ascii_spec_bytes;

    let bs = s.as_bytes();
    let mut i: usize = 0;
    while i < bs.len()
        invariant
            i <= bs@.len(),
            out@ == old(out)@ + bs@.subrange(0, i as int),
        decreases bs@.len() - i,
    {
        out.push(bs[i]);
        proof {
            assert(out@ =~= old(out)@ + bs@.subrange(0, i + 1));
        }
        i += 1;
    }
    proof {
        assert(bs@.subrange(0, bs@.len() as int) =~= bs@);
        assert(bs@ =~= bytes_of_chars(s@));
    }
}


/// Builds a wire-compatible command frame from a list of ASCII command
/// strings: zero preamble, payload length, the command codec byte, the
/// count, the "set" type tag, each command with a 4-byte length prefix, the
/// redundant trailing count, and the payload checksum.
///
/// Returns `None` when the list cannot be framed: an empty list, more than
/// 255 commands, or a payload whose length leaves the 32-bit length field.
pub fn encode_commands(commands: &[&str]) -> (r: Option<Vec<u8>>)
    requires
        forall|i: int| 0 <= i < commands@.len() ==> vstd::string::is_ascii(#[trigger] commands@[i]),
    ensures
        ({
            let cmds = commands@.map_values(|s: &str| s@);
            match r {
                Some(out) => 1 <= cmds.len() <= 255 && commands_payload(cmds).len() <= u32::MAX
                    && out@ == commands_frame(cmds),
                None => !(1 <= cmds.len() <= 255 && commands_payload(cmds).len() <= u32::MAX),
            }
        }),
{
    broadcast use vstd::string::is_ascii_spec_bytes;

    let ghost cmds = commands@.map_values(|s: &str| s@);
    if commands.len() < 1 || commands.len() > 255 {
        return None;
    }
    proof {
        assert(commands_payload(cmds).len() == 4 + encoded_command_list(cmds).len());
    }
    // First pass: the payload size, stopping as soon as it leaves 32 bits.
    let mut total: u64 = 4;
    let mut i: usize = 0;
    proof {
        assert(cmds.subrange(0, 0) =~= Seq::<Seq<char>>::empty());
    }
    while i < commands.len()
        invariant
            i <= commands@.len(),
            cmds == commands@.map_values(|s: &str| s@),
            total as int == 4 + encoded_command_list(cmds.subrange(0, i as int)).len(),
            total <= u32::MAX,
            forall|j: int| 0 <= j < commands@.len() ==> vstd::string::is_ascii(
                #[trigger] commands@[j],
            ),
        decreases commands@.len() - i,
    {
        let s: &str = commands[i];
        let blen = s.as_bytes().len();
        proof {
            assert(bytes_of_chars(s@) =~= s.spec_bytes());
            assert(cmds[i as int] == s@);
            lemma_encoded_list_snoc(cmds, i as int);
        }
        if blen >= u32::MAX as usize || total + 4 + blen as u64 > u32::MAX as u64 {
            proof {
                lemma_encoded_list_prefix_len(cmds, i + 1);
            }
            return None;
        }
        total = total + 4 + blen as u64;
        i += 1;
    }
    proof {
        assert(cmds.subrange(0, cmds.len() as int) =~= cmds);
    }
    // Second pass: the frame bytes.
    let payload_len: u32 = total as u32;
    let mut payload: Vec<u8> = Vec::new();
    payload.push(0x0C);
    payload.push(commands.len() as u8);
    payload.push(0x05);
    proof {
        assert(payload@ =~= seq![0x0Cu8, cmds.len() as u8, 0x05u8]);
        assert(cmds.subrange(0, 0) =~= Seq::<Seq<char>>::empty());
        assert(payload@ + encoded_command_list(cmds.subrange(0, 0)) =~= payload@);
    }
    let ghost head = payload@;
    let mut k: usize = 0;
    while k < commands.len()
        invariant
            k <= commands@.len(),
            cmds == commands@.map_values(|s: &str| s@),
            4 + encoded_command_list(cmds).len() <= u32::MAX,
            payload@ == head + encoded_command_list(cmds.subrange(0, k as int)),
            forall|j: int| 0 <= j < commands@.len() ==> vstd::string::is_ascii(
                #[trigger] commands@[j],
            ),
        decreases commands@.len() - k,
    {
        let s: &str = commands[k];
        let blen = s.as_bytes().len();
        proof {
            assert(bytes_of_chars(s@) =~= s.spec_bytes());
            assert(cmds[k as int] == s@);
            lemma_encoded_list_snoc(cmds, k as int);
        }
        if blen >= u32::MAX as usize {
            // Ruled out by the first pass, whose total covers every command.
            proof {
                lemma_encoded_list_prefix_len(cmds, k + 1);
            }
            return None;
        }
        push_be32(&mut payload, blen as u32);
        push_ascii(&mut payload, s);
        proof {
            assert(payload@ =~= head + encoded_command_list(cmds.subrange(0, k + 1)));
        }
        k += 1;
    }
    payload.push(commands.len() as u8);
    proof {
        assert(cmds.subrange(0, cmds.len() as int) =~= cmds);
        assert(payload@ =~= commands_payload(cmds));
    }
    let crc = crc16(payload.as_slice());
    let mut out: Vec<u8> = Vec::new();
    out.push(0);
    out.push(0);
    out.push(0);
    out.push(0);
    proof {
        assert(out@ =~= seq![0u8, 0u8, 0u8, 0u8]);
    }
    push_be32(&mut out, payload_len);
    let mut j: usize = 0;
    let ghost mid = out@;
    while j < payload.len()
        invariant
            j <= payload@.len(),
            out@ == mid + payload@.subrange(0, j as int),
            payload@ == commands_payload(cmds),
        decreases payload@.len() - j,
    {
        out.push(payload[j]);
        proof {
            assert(out@ =~= mid + payload@.subrange(0, j + 1));
        }
        j += 1;
    }
    proof {
        assert(payload@.subrange(0, payload@.len() as int) =~= payload@);
    }
    push_be32(&mut out, crc as u32);
    proof {
        assert(out@ =~= commands_frame(cmds));
    }
    Some(out)
}

/// Builds a single-command frame; see [`encode_commands`].
pub fn encode_command(command: &str) -> (r: Option<Vec<u8>>)
    requires
        vstd::string::is_ascii(command),
    ensures
        ({
            let cmds = seq![command@];
            match r {
                Some(out) => commands_payload(cmds).len() <= u32::MAX && out@ == commands_frame(
                    cmds,
                ),
                None => commands_payload(cmds).len() > u32::MAX,
            }
        }),
{
    let commands: [&str; 1] = [command];
    let r = encode_commands(commands.as_slice());
    proof {
        assert(commands@.map_values(|s: &str| s@) =~= seq![command@]);
    }
    r
}

/// The single approval byte written after a successful identifier read.
pub fn imei_approval_bytes() -> (r: Vec<u8>)
    ensures
        r@ == seq![1u8],
{
    let mut out: Vec<u8> = Vec::new();
    out.push(1);
    proof {
        assert(out@ =~= seq![1u8]);
    }
    out
}

/// The single denial byte written to reject a device identifier.
pub fn imei_denial_bytes() -> (r: Vec<u8>)
    ensures
        r@ == seq![0u8],
{
    let mut out: Vec<u8> = Vec::new();
    out.push(0);
    proof {
        assert(out@ =~= seq![0u8]);
    }
    out
}

/// The frame acknowledgement bytes: the frame's record or response count as
/// four big-endian bytes, or zero for `None`.
pub fn frame_ack_bytes(frame: Option<&TeltonikaFrame>) -> (r: Vec<u8>)
    ensures
        r@ == frame_ack(
            match frame {
                Some(f) => match f@ {
                    crate::protocol::FrameView::AVL(a) => a.records.len() as u32,
                    crate::protocol::FrameView::GPRS(g) => g.command_responses.len() as u32,
                },
                None => 0,
            },
        ),
{
    let ack: u32 = match frame {
        Some(TeltonikaFrame::AVL(f)) => {
            proof {
                assert(f.records@.map_values(|x: crate::protocol::AVLRecord| x@).len()
                    == f.records@.len());
            }
            f.records.len() as u32
        },
        Some(TeltonikaFrame::GPRS(f)) => {
            proof {
                assert(f.command_responses@.map_values(|x: String| x@).len()
                    == f.command_responses@.len());
            }
            f.command_responses.len() as u32
        },
        None => 0,
    };
    let mut out: Vec<u8> = Vec::new();
    push_be32(&mut out, ack);
    proof {
        assert(Seq::<u8>::empty() + be32_bytes(ack) =~= be32_bytes(ack));
    }
    out
}

/// The datagram acknowledgement bytes, mirroring the datagram header: a
/// 2-byte count, the packet identifier, the fixed marker byte, the
/// sub-identifier, and a 4-byte count; all zero for `None`.
pub fn datagram_ack_bytes(datagram: Option<&AVLDatagram>) -> (r: Vec<u8>)
    ensures
        r@ == (match datagram {
            Some(d) => datagram_ack(
                d@.records.len() as u16,
                d@.packet_id,
                d@.avl_packet_id,
                d@.records.len() as u32,
            ),
            None => datagram_ack(0, 0, 0, 0),
        }),
{
    let (count16, packet_id, avl_packet_id, count32): (u16, u16, u8, u32) = match datagram {
        Some(d) => {
            proof {
                assert(d.records@.map_values(|x: crate::protocol::AVLRecord| x@).len()
                    == d.records@.len());
            }
            (d.records.len() as u16, d.packet_id, d.avl_packet_id, d.records.len() as u32)
        },
        None => (0, 0, 0, 0),
    };
    let mut out: Vec<u8> = Vec::new();
    push_be16(&mut out, count16);
    push_be16(&mut out, packet_id);
    out.push(0x01);
    out.push(avl_packet_id);
    push_be32(&mut out, count32);
    proof {
        assert(out@ =~= datagram_ack(count16, packet_id, avl_packet_id, count32));
    }
    out
}

} // verus!
