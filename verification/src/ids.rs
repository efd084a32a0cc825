//! Reactor identifiers and their wire form.
//!
//! A reactor identifier is a 128-bit opaque value, globally unique within the
//! process; equality is bitwise. On the wire an identifier travels as a raw
//! 16-byte big-endian blob, and a 64-bit player token as an 8-byte big-endian
//! integer.

use vstd::prelude::*;

verus! {

/// A 128-bit reactor identifier, kept as two 64-bit halves.
#[derive(Clone, Copy, PartialEq, Eq, Structural, Hash, Debug)]
pub struct ReactorID {
    pub high: u64,
    pub low: u64,
}

/// The big-endian byte image of a 64-bit value.
pub open spec fn be_bytes_of(x: u64) -> Seq<u8> {
    seq![
        ((x >> 56u64) & 0xff) as u8,
        ((x >> 48u64) & 0xff) as u8,
        ((x >> 40u64) & 0xff) as u8,
        ((x >> 32u64) & 0xff) as u8,
        ((x >> 24u64) & 0xff) as u8,
        ((x >> 16u64) & 0xff) as u8,
        ((x >> 8u64) & 0xff) as u8,
        (x & 0xff) as u8,
    ]
}

/// The 64-bit value recomposed from 8 big-endian bytes.
pub open spec fn be_u64_of(b: Seq<u8>) -> u64
    recommends
        b.len() == 8,
{
    (((b[0] as u64) << 56u64) | ((b[1] as u64) << 48u64) | ((b[2] as u64) << 40u64)
        | ((b[3] as u64) << 32u64) | ((b[4] as u64) << 24u64) | ((b[5] as u64) << 16u64)
        | ((b[6] as u64) << 8u64) | (b[7] as u64)) as u64
}

/// Encode a 64-bit value as 8 big-endian bytes.
pub fn u64_to_be_bytes(x: u64) -> (r: Vec<u8>)
    ensures
        r@ == be_bytes_of(x),
{
    let mut r: Vec<u8> = Vec::new();
    r.push(((x >> 56u64) & 0xff) as u8);
    r.push(((x >> 48u64) & 0xff) as u8);
    r.push(((x >> 40u64) & 0xff) as u8);
    r.push(((x >> 32u64) & 0xff) as u8);
    r.push(((x >> 24u64) & 0xff) as u8);
    r.push(((x >> 16u64) & 0xff) as u8);
    r.push(((x >> 8u64) & 0xff) as u8);
    r.push((x & 0xff) as u8);
    proof {
        assert(r@ =~= be_bytes_of(x));
    }
    r
}

/// Decode 8 big-endian bytes back into the 64-bit value they encode.
pub fn u64_from_be_bytes(b: &[u8]) -> (r: u64)
    requires
        b@.len() == 8,
    ensures
        r == be_u64_of(b@),
{
    ((b[0] as u64) << 56u64) | ((b[1] as u64) << 48u64) | ((b[2] as u64) << 40u64)
        | ((b[3] as u64) << 32u64) | ((b[4] as u64) << 24u64) | ((b[5] as u64) << 16u64)
        | ((b[6] as u64) << 8u64) | (b[7] as u64)
}

/// Recomposing the big-endian bytes of a value gives the value back.
pub proof fn lemma_be_roundtrip(x: u64)
    ensures
        be_u64_of(be_bytes_of(x)) == x,
{
    assert(((((((x >> 56u64) & 0xff) as u8) as u64) << 56u64)
        | (((((x >> 48u64) & 0xff) as u8) as u64) << 48u64)
        | (((((x >> 40u64) & 0xff) as u8) as u64) << 40u64)
        | (((((x >> 32u64) & 0xff) as u8) as u64) << 32u64)
        | (((((x >> 24u64) & 0xff) as u8) as u64) << 24u64)
        | (((((x >> 16u64) & 0xff) as u8) as u64) << 16u64)
        | (((((x >> 8u64) & 0xff) as u8) as u64) << 8u64) | (((x & 0xff) as u8) as u64)) as u64
        == x) by (bit_vector);
}

impl ReactorID {
    /// The 16-byte big-endian wire form of this identifier.
    pub fn bytes(&self) -> (r: Vec<u8>)
        ensures
            r@ == be_bytes_of(self.high) + be_bytes_of(self.low),
    {
        let mut r = u64_to_be_bytes(self.high);
        let mut lo = u64_to_be_bytes(self.low);
        r.append(&mut lo);
        r
    }

    /// Read an identifier back from its 16-byte big-endian wire form.
    pub fn from_bytes(b: &[u8]) -> (r: Option<ReactorID>)
        ensures
            b@.len() == 16 ==> (r matches Some(id) && id.high == be_u64_of(b@.subrange(0, 8))
                && id.low == be_u64_of(b@.subrange(8, 16))),
            b@.len() != 16 ==> r is None,
    {
        if b.len() != 16 {
            return None;
        }
        let (hi_part, lo_part) = b.split_at(8);
        let high = u64_from_be_bytes(hi_part);
        let low = u64_from_be_bytes(lo_part);
        Some(ReactorID { high, low })
    }
}

/// An identifier survives the round trip through its wire form.
pub proof fn lemma_id_wire_roundtrip(id: ReactorID)
    ensures
        ({
            let w = be_bytes_of(id.high) + be_bytes_of(id.low);
            be_u64_of(w.subrange(0, 8)) == id.high && be_u64_of(w.subrange(8, 16)) == id.low
        }),
{
    let w = be_bytes_of(id.high) + be_bytes_of(id.low);
    assert(w.subrange(0, 8) =~= be_bytes_of(id.high));
    assert(w.subrange(8, 16) =~= be_bytes_of(id.low));
    lemma_be_roundtrip(id.high);
    lemma_be_roundtrip(id.low);
}

} // verus!
