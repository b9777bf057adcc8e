//! Big-endian integers and the error kinds of the byte-level decoders.
use vstd::prelude::*;

verus! {

/// Why a decoder gave up on its input.
#[derive(Debug, Clone, Copy, PartialEq, Eq, Structural)]
pub enum DnsError {
    /// Fewer bytes remain than a fixed-size field or a declared length needs.
    Truncated,
    /// The bytes of a label are not valid UTF-8 text.
    MalformedLabel,
}

/// The two bytes of `v`, most significant first.
pub open spec fn be16(v: u16) -> Seq<u8> {
    seq![(v >> 8u16) as u8, (v & 0xffu16) as u8]
}

/// The four bytes of `v`, most significant first.
pub open spec fn be32(v: u32) -> Seq<u8> {
    seq![(v >> 24u32) as u8, ((v >> 16u32) & 0xffu32) as u8, ((v >> 8u32) & 0xffu32) as u8, (v & 0xffu32) as u8]
}

/// The 16-bit integer whose big-endian bytes are `hi`, `lo`.
pub open spec fn from_be16(hi: u8, lo: u8) -> u16 {
    ((hi as u16) << 8u16) | (lo as u16)
}

/// The 32-bit integer whose big-endian bytes are `b0` .. `b3`.
pub open spec fn from_be32(b0: u8, b1: u8, b2: u8, b3: u8) -> u32 {
    ((b0 as u32) << 24u32) | ((b1 as u32) << 16u32) | ((b2 as u32) << 8u32) | (b3 as u32)
}

/// Reading back the two bytes of `v` gives `v`.
pub proof fn lemma_be16_round_trip(v: u16)
    ensures
        from_be16(be16(v)[0], be16(v)[1]) == v,
{
    assert((((((v >> 8u16) as u8) as u16) << 8u16) | (((v & 0xffu16) as u8) as u16)) == v)
        by (bit_vector);
}

/// Reading back the four bytes of `v` gives `v`.
pub proof fn lemma_be32_round_trip(v: u32)
    ensures
        from_be32(be32(v)[0], be32(v)[1], be32(v)[2], be32(v)[3]) == v,
{
    assert(((((v >> 24u32) as u8) as u32) << 24u32) | (((((v >> 16u32) & 0xffu32) as u8) as u32)
        << 16u32) | (((((v >> 8u32) & 0xffu32) as u8) as u32) << 8u32) | (((v & 0xffu32) as u8)
        as u32) == v) by (bit_vector);
}

/// Appends the big-endian bytes of `v`.
pub fn push_be16(out: &mut Vec<u8>, v: u16)
    ensures
        final(out)@ == old(out)@ + be16(v),
{
    out.push((v >> 8u16) as u8);
    out.push((v & 0xffu16) as u8);
    assert(final(out)@ =~= old(out)@ + be16(v));
}

/// Appends the big-endian bytes of `v`.
pub fn push_be32(out: &mut Vec<u8>, v: u32)
    ensures
        final(out)@ == old(out)@ + be32(v),
{
    out.push((v >> 24u32) as u8);
    out.push(((v >> 16u32) & 0xffu32) as u8);
    out.push(((v >> 8u32) & 0xffu32) as u8);
    out.push((v & 0xffu32) as u8);
    assert(final(out)@ =~= old(out)@ + be32(v));
}

/// Reads a byte at `pos`: the byte and the position after it.
pub open spec fn spec_read_u8(b: Seq<u8>, pos: int) -> Result<(u8, int), DnsError> {
    if 0 <= pos && pos + 1 <= b.len() {
        Ok((b[pos], pos + 1))
    } else {
        Err(DnsError::Truncated)
    }
}

/// Reads a big-endian 16-bit integer at `pos`.
pub open spec fn spec_read_u16(b: Seq<u8>, pos: int) -> Result<(u16, int), DnsError> {
    if 0 <= pos && pos + 2 <= b.len() {
        Ok((from_be16(b[pos], b[pos + 1]), pos + 2))
    } else {
        Err(DnsError::Truncated)
    }
}

/// Reads a big-endian 32-bit integer at `pos`.
pub open spec fn spec_read_u32(b: Seq<u8>, pos: int) -> Result<(u32, int), DnsError> {
    if 0 <= pos && pos + 4 <= b.len() {
        Ok((from_be32(b[pos], b[pos + 1], b[pos + 2], b[pos + 3]), pos + 4))
    } else {
        Err(DnsError::Truncated)
    }
}

/// Reads the byte at `pos`, or fails with `Truncated`.
pub fn read_u8(b: &[u8], pos: usize) -> (r: Result<(u8, usize), DnsError>)
    ensures
        match r {
            Ok((v, p)) => spec_read_u8(b@, pos as int) == Ok::<(u8, int), DnsError>((v, p as int)),
            Err(e) => spec_read_u8(b@, pos as int) == Err::<(u8, int), DnsError>(e),
        },
{
    if pos < b.len() {
        Ok((b[pos], pos + 1))
    } else {
        Err(DnsError::Truncated)
    }
}

/// Reads the big-endian 16-bit integer at `pos`, or fails with `Truncated`.
pub fn read_u16(b: &[u8], pos: usize) -> (r: Result<(u16, usize), DnsError>)
    ensures
        match r {
            Ok((v, p)) => spec_read_u16(b@, pos as int) == Ok::<(u16, int), DnsError>((v, p as int)),
            Err(e) => spec_read_u16(b@, pos as int) == Err::<(u16, int), DnsError>(e),
        },
{
    if pos < b.len() && b.len() - pos >= 2 {
        let v: u16 = ((b[pos] as u16) << 8u16) | (b[pos + 1] as u16);
        Ok((v, pos + 2))
    } else {
        Err(DnsError::Truncated)
    }
}

/// Reads the big-endian 32-bit integer at `pos`, or fails with `Truncated`.
pub fn read_u32(b: &[u8], pos: usize) -> (r: Result<(u32, usize), DnsError>)
    ensures
        match r {
            Ok((v, p)) => spec_read_u32(b@, pos as int) == Ok::<(u32, int), DnsError>((v, p as int)),
            Err(e) => spec_read_u32(b@, pos as int) == Err::<(u32, int), DnsError>(e),
        },
{
    if pos < b.len() && b.len() - pos >= 4 {
        let v: u32 = ((b[pos] as u32) << 24u32) | ((b[pos + 1] as u32) << 16u32)
            | ((b[pos + 2] as u32) << 8u32) | (b[pos + 3] as u32);
        Ok((v, pos + 4))
    } else {
        Err(DnsError::Truncated)
    }
}

} // verus!
