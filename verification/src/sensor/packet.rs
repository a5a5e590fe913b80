//! Decoding of the two sensor packet layouts into report lines.
use vstd::prelude::*;
use crate::text::{int_text, push_int, push_str};
use crate::sensor::time::{format_time, time_text};

verus! {

/// Unsigned big-endian value of a byte sequence.
pub open spec fn be_u(s: Seq<u8>) -> nat
    decreases s.len(),
{
    if s.len() == 0 {
        0
    } else {
        be_u(s.drop_last()) * 256 + s.last() as nat
    }
}

/// 256 to the power `n`.
pub open spec fn pow256(n: nat) -> nat
    decreases n,
{
    if n == 0 {
        1
    } else {
        256 * pow256((n - 1) as nat)
    }
}

/// Signed 64-bit big-endian value (two's complement) of eight bytes.
pub open spec fn be_i64(s: Seq<u8>) -> i64 {
    (be_u(s) as u64) as i64
}

/// Signed 32-bit big-endian value (two's complement) of four bytes.
pub open spec fn be_i32(s: Seq<u8>) -> i32 {
    (be_u(s) as u32) as i32
}

/// Signed 16-bit big-endian value (two's complement) of two bytes.
pub open spec fn be_i16(s: Seq<u8>) -> i16 {
    (be_u(s) as u16) as i16
}

/// The report line of a port-5123 packet (time, temperature text, pressure).
pub open spec fn line_5123(time: Seq<char>, temp: Seq<char>, press: int) -> Seq<char> {
    time + " | 5123 | Temp: "@ + temp + " | Press: "@ + int_text(press)
}

/// The report line of a port-5124 packet (time and three axes).
pub open spec fn line_5124(time: Seq<char>, x: int, y: int, z: int) -> Seq<char> {
    time + " | 5124 | X: "@ + int_text(x) + " | Y: "@ + int_text(y) + " | Z: "@ + int_text(z)
}

/// The report line of a port-5123 packet, given the rendered temperature.
pub open spec fn report_5123(packet: Seq<u8>, temp: Seq<char>) -> Seq<char> {
    line_5123(time_text(be_i64(packet.subrange(0, 8))), temp, be_i16(packet.subrange(12, 14)) as int)
}

/// The report line of a port-5124 packet.
pub open spec fn report_5124(packet: Seq<u8>) -> Seq<char> {
    line_5124(
        time_text(be_i64(packet.subrange(0, 8))),
        be_i32(packet.subrange(8, 12)) as int,
        be_i32(packet.subrange(12, 16)) as int,
        be_i32(packet.subrange(16, 20)) as int,
    )
}

proof fn lemma_be_u_bound(s: Seq<u8>)
    ensures
        be_u(s) < pow256(s.len()),
    decreases s.len(),
{
    if s.len() > 0 {
        lemma_be_u_bound(s.drop_last());
        let a = be_u(s.drop_last());
        let p = pow256(s.drop_last().len());
        let b = s.last() as nat;
        assert(a * 256 + b < 256 * p) by (nonlinear_arith)
            requires
                a < p,
                b < 256,
        ;
    }
}

/// Big-endian unsigned value of `len` bytes of `buf` starting at `start`.
pub fn be_uint(buf: &[u8], start: usize, len: usize) -> (v: u64)
    requires
        len <= 8,
        start + len <= buf.len(),
    ensures
        v as nat == be_u(buf@.subrange(start as int, start + len)),
{
    let mut v: u64 = 0;
    let mut i: usize = 0;
    while i < len
        invariant
            len <= 8,
            start + len <= buf.len(),
            i <= len,
            v as nat == be_u(buf@.subrange(start as int, start + i)),
        decreases len - i,
    {
        proof {
            lemma_be_u_bound(buf@.subrange(start as int, start + i));
            assert(pow256(i as nat) <= pow256(7)) by {
                lemma_pow256_mono(i as nat, 7);
            }
            assert(pow256(7) == 0x100_0000_0000_0000) by {
                reveal_with_fuel(pow256, 8);
            }
        }
        let b = buf[start + i];
        assert(buf@.subrange(start as int, start + i + 1).drop_last() == buf@.subrange(start as int, start + i));
        v = v * 256 + b as u64;
        i = i + 1;
    }
    v
}

proof fn lemma_pow256_mono(a: nat, b: nat)
    requires
        a <= b,
    ensures
        pow256(a) <= pow256(b),
    decreases b,
{
    if a < b {
        lemma_pow256_mono(a, (b - 1) as nat);
    }
}

/// The raw IEEE-754 bits of the temperature of a port-5123 packet (bytes 8..12).
pub fn temperature_bits(buffer: &[u8]) -> (bits: u32)
    requires
        buffer.len() >= 12,
    ensures
        bits as nat == be_u(buffer@.subrange(8, 12)),
{
    proof {
        lemma_be_u_bound(buffer@.subrange(8, 12));
        assert(pow256(4) == 0x1_0000_0000) by {
            reveal_with_fuel(pow256, 5);
        }
    }
    be_uint(buffer, 8, 4) as u32
}

/// The report line of a port-5123 packet: its timestamp (bytes 0..8), the
/// temperature already rendered by the caller, and its pressure (bytes 12..14).
pub fn parse_port_5123(buffer: &[u8], temp_text: &str) -> (line: String)
    requires
        buffer.len() >= 14,
    ensures
        line@ == report_5123(buffer@, temp_text@),
{
    let time = be_uint(buffer, 0, 8) as i64;
    let press = be_uint(buffer, 12, 2) as u16 as i16;
    let mut line = format_time(time);
    push_str(&mut line, " | 5123 | Temp: ");
    push_str(&mut line, temp_text);
    push_str(&mut line, " | Press: ");
    push_int(&mut line, press as i64);
    line
}

/// The report line of a port-5124 packet: its timestamp (bytes 0..8) and the
/// three axes (bytes 8..12, 12..16, 16..20).
pub fn parse_port_5124(buffer: &[u8]) -> (line: String)
    requires
        buffer.len() >= 20,
    ensures
        line@ == report_5124(buffer@),
{
    let time = be_uint(buffer, 0, 8) as i64;
    let x = be_uint(buffer, 8, 4) as u32 as i32;
    let y = be_uint(buffer, 12, 4) as u32 as i32;
    let z = be_uint(buffer, 16, 4) as u32 as i32;
    let mut line = format_time(time);
    push_str(&mut line, " | 5124 | X: ");
    push_int(&mut line, x as i64);
    push_str(&mut line, " | Y: ");
    push_int(&mut line, y as i64);
    push_str(&mut line, " | Z: ");
    push_int(&mut line, z as i64);
    line
}

/// Big-endian values compose: the value of `s` followed by `t` is the value of
/// `s` shifted left by the bytes of `t`, plus the value of `t`.
pub proof fn lemma_be_u_concat(s: Seq<u8>, t: Seq<u8>)
    ensures
        be_u(s + t) == be_u(s) * pow256(t.len()) + be_u(t),
    decreases t.len(),
{
    if t.len() == 0 {
        assert(s + t =~= s);
        assert(pow256(0) == 1);
        assert(be_u(s) * 1 == be_u(s)) by (nonlinear_arith);
    } else {
        lemma_be_u_concat(s, t.drop_last());
        assert((s + t).drop_last() =~= s + t.drop_last());
        assert((s + t).last() == t.last());
        assert(be_u(s + t) == be_u(s + t.drop_last()) * 256 + t.last() as nat);
        assert(be_u(t) == be_u(t.drop_last()) * 256 + t.last() as nat);
        assert(pow256(t.len()) == 256 * pow256(t.drop_last().len()));
        let a = be_u(s);
        let p = pow256(t.drop_last().len());
        let b = be_u(t.drop_last());
        let c = t.last() as nat;
        assert((a * p + b) * 256 + c == a * (256 * p) + (b * 256 + c)) by (nonlinear_arith);
    }
}

/// A single byte is its own big-endian value, and the empty sequence is 0.
pub proof fn lemma_be_u_byte(b: u8)
    ensures
        be_u(seq![b]) == b,
        be_u(Seq::empty()) == 0,
{
    assert(seq![b].drop_last() =~= Seq::<u8>::empty());
    assert(be_u(seq![b]) == be_u(Seq::<u8>::empty()) * 256 + b as nat);
}

/// The signed 32-bit reading of four bytes is their unsigned big-endian value
/// when below 2^31, and that value minus 2^32 otherwise (two's complement).
pub proof fn lemma_be_i32_twos_complement(s: Seq<u8>)
    requires
        s.len() == 4,
    ensures
        be_u(s) < 0x8000_0000 ==> be_i32(s) as int == be_u(s),
        be_u(s) >= 0x8000_0000 ==> be_i32(s) as int == be_u(s) - 0x1_0000_0000,
{
    lemma_be_u_bound(s);
    assert(pow256(4) == 0x1_0000_0000) by {
        reveal_with_fuel(pow256, 5);
    }
    let u = be_u(s) as u32;
    assert(u as int == be_u(s));
    assert(u < 0x8000_0000 ==> (u as i32) as int == u as int) by (bit_vector);
    assert(u >= 0x8000_0000 ==> (u as i32) as int == u as int - 0x1_0000_0000) by (bit_vector);
}

/// The value of two bytes read as a signed big-endian 16-bit integer.
pub open spec fn signed16_at(p: Seq<u8>, i: int) -> int {
    let u = p[i] as int * 256 + p[i + 1] as int;
    if u < 0x8000 {
        u
    } else {
        u - 0x1_0000
    }
}

/// The value of four bytes read as a signed big-endian 32-bit integer.
pub open spec fn signed32_at(p: Seq<u8>, i: int) -> int {
    let u = p[i] as int * 0x100_0000 + p[i + 1] as int * 0x1_0000 + p[i + 2] as int * 0x100 + p[i + 3] as int;
    if u < 0x8000_0000 {
        u
    } else {
        u - 0x1_0000_0000
    }
}

proof fn lemma_be_u_two(s: Seq<u8>)
    requires
        s.len() == 2,
    ensures
        be_u(s) == s[0] as int * 256 + s[1] as int,
{
    assert(s.drop_last().drop_last() =~= Seq::<u8>::empty());
    assert(be_u(s.drop_last().drop_last()) == 0);
    assert(be_u(s.drop_last()) == s[0] as int);
}

proof fn lemma_be_u_four(s: Seq<u8>)
    requires
        s.len() == 4,
    ensures
        be_u(s) == s[0] as int * 0x100_0000 + s[1] as int * 0x1_0000 + s[2] as int * 0x100 + s[3] as int,
{
    let t = s.drop_last().drop_last();
    lemma_be_u_two(t);
    assert(be_u(s.drop_last()) == be_u(t) * 256 + s[2] as int);
    assert(be_u(s) == be_u(s.drop_last()) * 256 + s[3] as int);
}

/// The fields of a port-5124 report line: the axes are bytes 8..12, 12..16 and
/// 16..20 of the packet, each a signed big-endian 32-bit integer.
pub proof fn lemma_report_5124_fields(packet: Seq<u8>)
    requires
        packet.len() >= 20,
    ensures
        report_5124(packet) == line_5124(
            time_text(be_i64(packet.subrange(0, 8))),
            signed32_at(packet, 8),
            signed32_at(packet, 12),
            signed32_at(packet, 16),
        ),
{
    let x = packet.subrange(8, 12);
    let y = packet.subrange(12, 16);
    let z = packet.subrange(16, 20);
    lemma_be_u_four(x);
    lemma_be_u_four(y);
    lemma_be_u_four(z);
    lemma_be_i32_twos_complement(x);
    lemma_be_i32_twos_complement(y);
    lemma_be_i32_twos_complement(z);
}

/// The pressure of a port-5123 report line is bytes 12..14 of the packet, a
/// signed big-endian 16-bit integer.
pub proof fn lemma_report_5123_pressure(packet: Seq<u8>, temp: Seq<char>)
    requires
        packet.len() >= 14,
    ensures
        report_5123(packet, temp) == line_5123(time_text(be_i64(packet.subrange(0, 8))), temp, signed16_at(packet, 12)),
{
    let p = packet.subrange(12, 14);
    lemma_be_u_two(p);
    let u = be_u(p) as u16;
    assert(u as int == be_u(p));
    assert(u < 0x8000 ==> (u as i16) as int == u as int) by (bit_vector);
    assert(u >= 0x8000 ==> (u as i16) as int == u as int - 0x1_0000) by (bit_vector);
}

} // verus!
