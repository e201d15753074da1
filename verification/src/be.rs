//! Big-endian encoding of 16-bit integers: the two-byte building block
//! that every multi-byte field of the format uses.

use vstd::prelude::*;

verus! {

/// The two bytes of `v` in big-endian order: high byte first.
pub open spec fn u16_be_bytes(v: u16) -> Seq<u8> {
    seq![(v / 256) as u8, (v % 256) as u8]
}

/// The `u16` read big-endian from the bytes `b0` (high) and `b1` (low).
pub open spec fn u16_from_be(b0: u8, b1: u8) -> u16 {
    (b0 as int * 256 + b1 as int) as u16
}

/// Splitting a `u16` into its big-endian bytes and reading them back
/// yields the original value.
pub proof fn lemma_u16_be_round_trip(v: u16)
    ensures
        u16_from_be(u16_be_bytes(v)[0], u16_be_bytes(v)[1]) == v,
{
}

/// Appends the two big-endian bytes of `v` to `buf`.
pub fn push_u16_be(buf: &mut Vec<u8>, v: u16)
    ensures
        final(buf)@ == old(buf)@ + u16_be_bytes(v),
{
    buf.push((v / 256) as u8);
    buf.push((v % 256) as u8);
    proof {
        assert(final(buf)@ =~= old(buf)@ + u16_be_bytes(v));
    }
}

/// Reads a `u16` from its big-endian bytes.
pub fn read_u16_be(b0: u8, b1: u8) -> (v: u16)
    ensures
        v == u16_from_be(b0, b1),
{
    (b0 as u16) * 256 + (b1 as u16)
}

} // verus!
