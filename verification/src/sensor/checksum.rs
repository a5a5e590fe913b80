//! The additive checksum that closes every sensor packet.
use vstd::prelude::*;

verus! {

/// Sum of all bytes of `s`.
pub open spec fn byte_sum(s: Seq<u8>) -> nat
    decreases s.len(),
{
    if s.len() == 0 {
        0
    } else {
        byte_sum(s.drop_last()) + s.last() as nat
    }
}

/// A packet is valid when it is not empty and its last byte is the sum of the
/// other bytes modulo 256.
pub open spec fn checksum_ok(packet: Seq<u8>) -> bool {
    packet.len() > 0 && byte_sum(packet.drop_last()) % 256 == packet.last() as nat
}

/// Checks the trailing checksum byte of a packet.
pub fn verify_checksum(buffer: &[u8]) -> (ok: bool)
    ensures
        ok == checksum_ok(buffer@),
{
    if buffer.len() == 0 {
        return false;
    }
    let len = buffer.len() - 1;
    let expected = buffer[len];
    let mut sum: u32 = 0;
    let mut i: usize = 0;
    while i < len
        invariant
            len == buffer.len() - 1,
            i <= len,
            sum as nat == byte_sum(buffer@.take(i as int)) % 0x1_0000_0000,
        decreases len - i,
    {
        let b = buffer[i];
        assert(buffer@.take(i + 1).drop_last() == buffer@.take(i as int));
        proof {
            vstd::arithmetic::div_mod::lemma_add_mod_noop(
                byte_sum(buffer@.take(i as int)) as int,
                b as int,
                0x1_0000_0000,
            );
        }
        sum = sum.wrapping_add(b as u32);
        i = i + 1;
    }
    assert(buffer@.take(len as int) == buffer@.drop_last());
    proof {
        vstd::arithmetic::div_mod::lemma_mod_mod(byte_sum(buffer@.drop_last()) as int, 256, 0x100_0000);
    }
    (sum % 256) as u8 == expected
}

/// Appending the sum of a payload modulo 256 yields a packet that passes
/// `verify_checksum`.
pub proof fn lemma_appended_checksum_verifies(payload: Seq<u8>)
    ensures
        checksum_ok(payload.push((byte_sum(payload) % 256) as u8)),
{
    assert(payload.push((byte_sum(payload) % 256) as u8).drop_last() == payload);
}

/// The byte sum adds up every byte: appending a byte adds its value, and the
/// sum of two pieces is the sum of their sums.
pub proof fn lemma_byte_sum_adds(s: Seq<u8>, b: u8, t: Seq<u8>)
    ensures
        byte_sum(Seq::empty()) == 0,
        byte_sum(s.push(b)) == byte_sum(s) + b,
        byte_sum(s + t) == byte_sum(s) + byte_sum(t),
    decreases t.len(),
{
    assert(s.push(b).drop_last() =~= s);
    if t.len() == 0 {
        assert(s + t =~= s);
    } else {
        lemma_byte_sum_adds(s, b, t.drop_last());
        assert((s + t).drop_last() =~= s + t.drop_last());
    }
}

/// A packet passes the check exactly when it is not empty and the sum of all
/// its bytes but the last, modulo 256, is the last byte, whatever its length.
pub proof fn lemma_checksum_counts_every_byte(payload: Seq<u8>, last: u8)
    ensures
        checksum_ok(payload.push(last)) <==> byte_sum(payload) % 256 == last,
        !checksum_ok(Seq::empty()),
{
    assert(payload.push(last).drop_last() =~= payload);
}

} // verus!
