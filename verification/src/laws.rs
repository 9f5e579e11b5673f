//! The format's laws: facts that hold of every frame, proved once and for
//! all against the specification parser and encoder.

use vstd::prelude::*;
use vstd::arithmetic::div_mod::lemma_fundamental_div_mod_converse;

use crate::format::{
    ascii_chars, be32_at, be32_bytes, byte_of_char, bytes_of_chars, chars_of_bytes,
    commands_frame, commands_payload, encoded_command, encoded_command_list, i32_of_be32,
    lemma_be32_bytes_at, lemma_encoded_list_prefix_len, lemma_encoded_list_snoc,
    lemma_sp_records_bounds, sp_frame, sp_payload, sp_records, sp_response, sp_responses, sp_u8,
    Parsed, PayloadView,
};
use crate::protocol::{
    AvlFrameView, Codec, DecodeError, FrameView, GprsFrameView, RecordView,
};
use crate::spec_crc16;

verus! {

/// The checksum of the empty byte sequence is zero. Being a specification
/// function, the checksum is a pure function of its input: two equal byte
/// sequences always have equal checksums.
pub proof fn lemma_crc16_empty()
    ensures
        spec_crc16(Seq::<u8>::empty()) == 0,
{
}

/// The four bytes of a big-endian 32-bit value are recoverable from the
/// value: the encoding is injective.
proof fn lemma_be32_at_digits(s: Seq<u8>, i: int)
    requires
        0 <= i,
        i + 4 <= s.len(),
    ensures
        be32_at(s, i) as int / 0x1000000 == s[i],
        (be32_at(s, i) as int / 0x10000) % 0x100 == s[i + 1],
        (be32_at(s, i) as int / 0x100) % 0x100 == s[i + 2],
        be32_at(s, i) as int % 0x100 == s[i + 3],
{
    let b0 = s[i] as int;
    let b1 = s[i + 1] as int;
    let b2 = s[i + 2] as int;
    let b3 = s[i + 3] as int;
    let v = b0 * 0x1000000 + b1 * 0x10000 + b2 * 0x100 + b3;
    assert(be32_at(s, i) as int == v);
    lemma_fundamental_div_mod_converse(v, 0x1000000, b0, b1 * 0x10000 + b2 * 0x100 + b3);
    lemma_fundamental_div_mod_converse(v, 0x10000, b0 * 0x100 + b1, b2 * 0x100 + b3);
    lemma_fundamental_div_mod_converse(b0 * 0x100 + b1, 0x100, b0, b1);
    lemma_fundamental_div_mod_converse(v, 0x100, b0 * 0x10000 + b1 * 0x100 + b2, b3);
    lemma_fundamental_div_mod_converse(b0 * 0x10000 + b1 * 0x100 + b2, 0x100, b0 * 0x100 + b1, b2);
}

/// Two 4-byte windows with the same big-endian value hold the same bytes.
proof fn lemma_be32_at_injective(s: Seq<u8>, t: Seq<u8>, i: int)
    requires
        0 <= i,
        i + 4 <= s.len(),
        i + 4 <= t.len(),
        be32_at(s, i) == be32_at(t, i),
    ensures
        s[i] == t[i],
        s[i + 1] == t[i + 1],
        s[i + 2] == t[i + 2],
        s[i + 3] == t[i + 3],
{
    lemma_be32_at_digits(s, i);
    lemma_be32_at_digits(t, i);
}

/// Coordinate decoding is two's-complement: a raw 32-bit wire value with
/// the sign bit set decodes to a negative signed value, offset by exactly
/// 2^32; with the sign bit clear it decodes to the value itself.
pub proof fn lemma_coordinate_sign(s: Seq<u8>, i: int)
    requires
        0 <= i,
        i + 4 <= s.len(),
    ensures
        s[i] >= 0x80 ==> i32_of_be32(be32_at(s, i)) < 0 && i32_of_be32(be32_at(s, i)) == be32_at(
            s,
            i,
        ) - 0x100000000,
        s[i] < 0x80 ==> i32_of_be32(be32_at(s, i)) == be32_at(s, i),
{
    let v = be32_at(s, i);
    if s[i] >= 0x80 {
        assert(v >= 0x80000000);
    } else {
        assert(v < 0x80000000);
    }
}

/// For every telemetry frame that decodes successfully, the number of
/// records equals the leading record-count byte of the payload, and equals
/// the redundant trailing count byte after the records.
pub proof fn lemma_record_counts_agree(s: Seq<u8>, f: AvlFrameView, end: int)
    requires
        sp_frame(s) == (Parsed::<FrameView>::Done { v: FrameView::AVL(f), end }),
    ensures
        ({
            let l = be32_at(s, 4) as int;
            let p = s.subrange(8, 8 + l);
            &&& 8 + l + 4 <= s.len()
            &&& 2 <= p.len()
            &&& p[1] as int == f.records.len()
            &&& exists|e: int|
                2 <= e < p.len() && sp_records(p, 2, f.codec, p[1] as nat) == (
                Parsed::<Seq<RecordView>>::Done { v: f.records, end: e }) && p[e] as int
                    == f.records.len()
        }),
{
    let l = be32_at(s, 4) as int;
    let p = s.subrange(8, 8 + l);
    match sp_payload(p) {
        Parsed::Done { v: pv, end: pe } => {
            match pv {
                PayloadView::Telemetry { codec, records } => {
                    let n = p[1] as nat;
                    lemma_sp_records_bounds(p, 2, codec, n);
                    let e = sp_records(p, 2, codec, n)->end;
                    assert(sp_u8(p, e) is Done);
                    assert(p[e] as int == f.records.len());
                },
                PayloadView::Command { codec, responses } => {
                    assert(false);
                },
            }
        },
        Parsed::More { need } => {
            assert(false);
        },
        Parsed::Fail { err } => {
            assert(false);
        },
    }
}

/// Truncating a decodable frame at any byte boundary strictly before its
/// end yields `Incomplete`, never a content-validation failure.
pub proof fn lemma_truncated_frame_incomplete(s: Seq<u8>, f: FrameView, end: int, m: int)
    requires
        sp_frame(s) == (Parsed::<FrameView>::Done { v: f, end }),
        0 <= m < end,
    ensures
        sp_frame(s.subrange(0, m)) is More,
{
    let t = s.subrange(0, m);
    let l = be32_at(s, 4) as int;
    if m < 4 {
    } else if m < 8 {
    } else if m < 8 + l {
        assert(be32_at(t, 4) == be32_at(s, 4));
    } else {
        assert(be32_at(t, 4) == be32_at(s, 4));
        assert(t.subrange(8, 8 + l) =~= s.subrange(8, 8 + l));
    }
}

/// Corrupting any single byte of a decodable frame's trailing 4-byte
/// checksum yields `ChecksumMismatch`.
pub proof fn lemma_corrupt_checksum_fails(
    s: Seq<u8>,
    f: FrameView,
    end: int,
    s2: Seq<u8>,
    j: int,
)
    requires
        sp_frame(s) == (Parsed::<FrameView>::Done { v: f, end }),
        s2.len() == s.len(),
        end - 4 <= j < end,
        s2[j] != s[j],
        forall|k: int| 0 <= k < s.len() && k != j ==> s2[k] == s[k],
    ensures
        sp_frame(s2) == (Parsed::<FrameView>::Fail { err: DecodeError::ChecksumMismatch }),
{
    let l = be32_at(s, 4) as int;
    assert(end == 8 + l + 4);
    assert(be32_at(s2, 4) == be32_at(s, 4));
    assert(s2.subrange(8, 8 + l) =~= s.subrange(8, 8 + l));
    assert(be32_at(s2, 8 + l) != be32_at(s, 8 + l)) by {
        if be32_at(s2, 8 + l) == be32_at(s, 8 + l) {
            lemma_be32_at_injective(s, s2, 8 + l);
        }
    }
}


/// One encoded command reads back as the command it encodes.
proof fn lemma_parse_encoded_response(p: Seq<u8>, i: int, cmd: Seq<char>)
    requires
        0 <= i,
        i + 4 + cmd.len() <= p.len(),
        cmd.len() <= u32::MAX,
        ascii_chars(cmd),
        p.subrange(i, i + 4 + cmd.len()) == encoded_command(cmd),
    ensures
        sp_response(p, i) == (Parsed::<Seq<char>>::Done { v: cmd, end: i + 4 + cmd.len() }),
{
    assert(p.subrange(i, i + 4) =~= be32_bytes(cmd.len() as u32)) by {
        assert(forall|j: int|
            0 <= j < 4 ==> p.subrange(i, i + 4)[j] == #[trigger] p.subrange(
                i,
                i + 4 + cmd.len(),
            )[j]);
    }
    lemma_be32_bytes_at(p, i, cmd.len() as u32);
    assert(p.subrange(i + 4, i + 4 + cmd.len()) =~= bytes_of_chars(cmd)) by {
        assert forall|j: int| 0 <= j < cmd.len() implies p.subrange(i + 4, i + 4 + cmd.len())[j]
            == bytes_of_chars(cmd)[j] by {
            assert(p.subrange(i + 4, i + 4 + cmd.len())[j] == p[i + 4 + j]);
            assert(p.subrange(i, i + 4 + cmd.len())[4 + j] == p[i + 4 + j]);
            assert(encoded_command(cmd)[4 + j] == bytes_of_chars(cmd)[j]);
        }
    }
    assert(chars_of_bytes(bytes_of_chars(cmd)) =~= cmd) by {
        assert forall|k: int| 0 <= k < cmd.len() implies chars_of_bytes(bytes_of_chars(cmd))[k]
            == cmd[k] by {
            let c = cmd[k];
            assert((c as u32) < 128);
            assert(byte_of_char(c) as u32 == c as u32);
            vstd::utf8::char_u32_cast(c, c as u32);
        }
    }
}

/// An encoded command list reads back as the commands it encodes.
proof fn lemma_parse_encoded_responses(p: Seq<u8>, i: int, cmds: Seq<Seq<char>>)
    requires
        0 <= i,
        i + encoded_command_list(cmds).len() <= p.len(),
        forall|k: int|
            0 <= k < cmds.len() ==> ascii_chars(#[trigger] cmds[k]) && cmds[k].len() <= u32::MAX,
        p.subrange(i, i + encoded_command_list(cmds).len()) == encoded_command_list(cmds),
    ensures
        sp_responses(p, i, cmds.len()) == (Parsed::<Seq<Seq<char>>>::Done {
            v: cmds,
            end: i + encoded_command_list(cmds).len(),
        }),
    decreases cmds.len(),
{
    if cmds.len() == 0 {
        assert(cmds =~= Seq::<Seq<char>>::empty());
    } else {
        let c0 = cmds[0];
        let rest = cmds.drop_first();
        let el = encoded_command_list(cmds);
        assert(el == encoded_command(c0) + encoded_command_list(rest));
        let n0 = 4 + c0.len();
        assert(encoded_command(c0).len() == n0);
        assert(p.subrange(i, i + n0) =~= encoded_command(c0)) by {
            assert(forall|j: int|
                0 <= j < n0 ==> p.subrange(i, i + n0)[j] == #[trigger] p.subrange(
                    i,
                    i + el.len(),
                )[j]);
        }
        lemma_parse_encoded_response(p, i, c0);
        assert(p.subrange(i + n0, i + el.len()) =~= encoded_command_list(rest)) by {
            assert forall|j: int|
                0 <= j < el.len() - n0 implies p.subrange(i + n0, i + el.len())[j]
                    == encoded_command_list(rest)[j] by {
                assert(p.subrange(i + n0, i + el.len())[j] == p[i + n0 + j]);
                assert(p.subrange(i, i + el.len())[n0 + j] == p[i + n0 + j]);
                assert(el[n0 + j] == encoded_command_list(rest)[j]);
            }
        }
        lemma_parse_encoded_responses(p, i + n0, rest);
        assert(seq![c0] + rest =~= cmds);
    }
}

/// Round trip: decoding an encoded command frame yields a command-response
/// frame carrying exactly the original command strings, for every list of
/// 1 to 255 ASCII commands whose payload fits the 32-bit length field.
pub proof fn lemma_commands_round_trip(cmds: Seq<Seq<char>>)
    requires
        1 <= cmds.len() <= 255,
        forall|k: int| 0 <= k < cmds.len() ==> ascii_chars(#[trigger] cmds[k]),
        commands_payload(cmds).len() <= u32::MAX,
    ensures
        ({
            let s = commands_frame(cmds);
            sp_frame(s) == (Parsed::<FrameView>::Done {
                v: FrameView::GPRS(
                    GprsFrameView {
                        codec: Codec::C12,
                        command_responses: cmds,
                        crc16: spec_crc16(commands_payload(cmds)) as u32,
                    },
                ),
                end: s.len() as int,
            })
        }),
{
    let p = commands_payload(cmds);
    let s = commands_frame(cmds);
    let el = encoded_command_list(cmds);
    let pl: int = p.len() as int;
    let ell: int = el.len() as int;
    assert forall|k: int| 0 <= k < cmds.len() implies cmds[k].len() <= u32::MAX by {
        lemma_encoded_list_snoc(cmds, k);
        lemma_encoded_list_prefix_len(cmds, k + 1);
    }
    assert(p.len() == 4 + el.len());
    assert(s.len() == 12 + p.len());
    assert(s[0] == 0 && s[1] == 0 && s[2] == 0 && s[3] == 0);
    assert(s.subrange(4, 8) =~= be32_bytes(p.len() as u32));
    lemma_be32_bytes_at(s, 4, p.len() as u32);
    assert(be32_at(s, 4) as int == p.len());
    assert(s.subrange(8, 8 + pl) =~= p);
    assert(p[0] == 0x0C && p[1] == cmds.len() as u8 && p[2] == 0x05);
    assert(p.subrange(3, 3 + ell) =~= el);
    lemma_parse_encoded_responses(p, 3, cmds);
    assert(p[3 + ell] == cmds.len() as u8);
    assert(sp_payload(p) == (Parsed::<PayloadView>::Done {
        v: PayloadView::Command { codec: Codec::C12, responses: cmds },
        end: p.len() as int,
    }));
    assert(s.subrange(8 + pl, 8 + pl + 4) =~= be32_bytes(spec_crc16(p) as u32));
    lemma_be32_bytes_at(s, 8 + pl, spec_crc16(p) as u32);
}

} // verus!
