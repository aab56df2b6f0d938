//! Wire encodings: the binary WebSocket frame the gateway sends, and the
//! fixed-width field-by-field layouts of the telemetry messages.

use vstd::prelude::*;

use crate::messages::{Attitude, SysInfo};

verus! {

/// A 16-bit value as two big-endian bytes.
pub open spec fn be16(n: u16) -> Seq<u8> {
    seq![((n >> 8) & 0xff) as u8, (n & 0xff) as u8]
}

/// A 64-bit value as eight big-endian bytes.
pub open spec fn be64(n: u64) -> Seq<u8> {
    seq![
        ((n >> 56) & 0xff) as u8,
        ((n >> 48) & 0xff) as u8,
        ((n >> 40) & 0xff) as u8,
        ((n >> 32) & 0xff) as u8,
        ((n >> 24) & 0xff) as u8,
        ((n >> 16) & 0xff) as u8,
        ((n >> 8) & 0xff) as u8,
        (n & 0xff) as u8,
    ]
}

/// A 32-bit value as four little-endian bytes.
pub open spec fn le32(n: u32) -> Seq<u8> {
    seq![
        (n & 0xff) as u8,
        ((n >> 8) & 0xff) as u8,
        ((n >> 16) & 0xff) as u8,
        ((n >> 24) & 0xff) as u8,
    ]
}

/// The three-tier payload length field of a server frame: lengths up to 125
/// stand in the single length byte, lengths up to 65535 follow the marker 126
/// as 16 big-endian bits, anything longer follows the marker 127 as 64
/// big-endian bits.
pub open spec fn len_field(n: u64) -> Seq<u8> {
    if n <= 125 {
        seq![n as u8]
    } else if n <= 65535 {
        seq![126u8] + be16(n as u16)
    } else {
        seq![127u8] + be64(n)
    }
}

/// One whole server-to-client frame: FIN set, opcode binary, no mask, the
/// tiered length field, then the raw payload.
pub open spec fn frame_wire(payload: Seq<u8>) -> Seq<u8> {
    seq![0x82u8] + len_field(payload.len() as u64) + payload
}

/// The 16-byte attitude layout: the four quaternion components in field
/// order, each as four little-endian bytes.
pub open spec fn attitude_wire(a: Attitude) -> Seq<u8> {
    le32(a.qw) + le32(a.qx) + le32(a.qy) + le32(a.qz)
}

/// The 7-byte telemetry layout: each field as a single byte, in field order,
/// the temperature as the two's-complement image of its signed value.
pub open spec fn sysinfo_wire(s: SysInfo) -> Seq<u8> {
    seq![s.free_mem, s.avail_mem, s.cpu, s.load1, s.load5, s.load15, s.temp as u8]
}

/// Encode one payload as a binary WebSocket frame.
pub fn encode_frame(payload: &Vec<u8>) -> (r: Vec<u8>)
    ensures
        r@ == frame_wire(payload@),
{
    let mut out: Vec<u8> = Vec::new();
    out.push(0x82);
    let len: usize = payload.len();
    let l64: u64 = len as u64;
    if len <= 125 {
        out.push(len as u8);
    } else if len <= 65535 {
        out.push(126);
        proof {
            assert(((l64 as u16) >> 8) & 0xff <= 0xff) by (bit_vector);
            assert((l64 as u16) & 0xff <= 0xff) by (bit_vector);
        }
        out.push((((len as u16) >> 8) & 0xff) as u8);
        out.push(((len as u16) & 0xff) as u8);
    } else {
        out.push(127);
        proof {
            assert(forall|k: u64, s: u64| s <= 63 ==> ((k >> s) & 0xff) <= 0xff) by (bit_vector);
        }
        out.push(((l64 >> 56) & 0xff) as u8);
        out.push(((l64 >> 48) & 0xff) as u8);
        out.push(((l64 >> 40) & 0xff) as u8);
        out.push(((l64 >> 32) & 0xff) as u8);
        out.push(((l64 >> 24) & 0xff) as u8);
        out.push(((l64 >> 16) & 0xff) as u8);
        out.push(((l64 >> 8) & 0xff) as u8);
        out.push((l64 & 0xff) as u8);
    }
    proof {
        assert(out@ =~= seq![0x82u8] + len_field(payload@.len() as u64));
    }
    let ghost header = out@;
    let mut i: usize = 0;
    while i < len
        invariant
            i <= len,
            len == payload@.len(),
            out@ == header + payload@.take(i as int),
        decreases len - i,
    {
        out.push(payload[i]);
        proof {
            assert(out@ =~= header + payload@.take(i + 1));
        }
        i = i + 1;
    }
    proof {
        assert(payload@.take(len as int) =~= payload@);
        assert(out@ =~= frame_wire(payload@));
    }
    out
}

/// Serialize an attitude message for the `attitude` channel.
pub fn attitude_bytes(a: &Attitude) -> (r: Vec<u8>)
    ensures
        r@ == attitude_wire(*a),
        r@.len() == 16,
{
    let mut out: Vec<u8> = Vec::new();
    push_le32(&mut out, a.qw);
    push_le32(&mut out, a.qx);
    push_le32(&mut out, a.qy);
    push_le32(&mut out, a.qz);
    proof {
        assert(out@ =~= attitude_wire(*a));
    }
    out
}

/// Serialize a telemetry snapshot for the `sysinfo` channel.
pub fn sysinfo_bytes(s: &SysInfo) -> (r: Vec<u8>)
    ensures
        r@ == sysinfo_wire(*s),
        r@.len() == 7,
{
    let mut out: Vec<u8> = Vec::new();
    out.push(s.free_mem);
    out.push(s.avail_mem);
    out.push(s.cpu);
    out.push(s.load1);
    out.push(s.load5);
    out.push(s.load15);
    out.push(s.temp as u8);
    proof {
        assert(out@ =~= sysinfo_wire(*s));
    }
    out
}

fn push_le32(out: &mut Vec<u8>, n: u32)
    ensures
        final(out)@ == old(out)@ + le32(n),
{
    proof {
        assert(forall|k: u32, s: u32| s <= 31 ==> ((k >> s) & 0xff) <= 0xff) by (bit_vector);
    }
    out.push((n & 0xff) as u8);
    out.push(((n >> 8) & 0xff) as u8);
    out.push(((n >> 16) & 0xff) as u8);
    out.push(((n >> 24) & 0xff) as u8);
    proof {
        assert(out@ =~= old(out)@ + le32(n));
    }
}

} // verus!
