//! IPv4 addresses as the server sees them: a 32-bit number written on the
//! wire as four big-endian octets.

use vstd::prelude::*;

verus! {

/// The value of four octets read as a big-endian 32-bit number.
pub open spec fn octets_value(a: u8, b: u8, c: u8, d: u8) -> int {
    a * 16777216 + b * 65536 + c * 256 + d
}

/// The four big-endian octets of a 32-bit number.
pub open spec fn be_octets(x: u32) -> Seq<u8> {
    seq![
        (x / 16777216) as u8,
        ((x / 65536) % 256) as u8,
        ((x / 256) % 256) as u8,
        (x % 256) as u8,
    ]
}

/// Writes `x` as four big-endian octets.
pub fn be_bytes(x: u32) -> (r: [u8; 4])
    ensures
        r@ == be_octets(x),
{
    let a = x / 16777216;
    let b = (x / 65536) % 256;
    let c = (x / 256) % 256;
    let d = x % 256;
    assert(a < 256) by (bit_vector)
        requires a == x / 16777216;
    let r = [a as u8, b as u8, c as u8, d as u8];
    assert(r@ =~= be_octets(x));
    r
}

/// An IPv4 address, held as its 32-bit value.
#[derive(Clone, Copy, PartialEq, Eq, Debug)]
pub struct Ipv4Addr(pub u32);

impl View for Ipv4Addr {
    type V = u32;

    open spec fn view(&self) -> u32 {
        self.0
    }
}

impl Ipv4Addr {
    /// The address `a.b.c.d`.
    pub fn new(a: u8, b: u8, c: u8, d: u8) -> (ip: Ipv4Addr)
        ensures
            ip@ == octets_value(a, b, c, d),
    {
        Ipv4Addr((a as u32) * 16777216 + (b as u32) * 65536 + (c as u32) * 256 + (d as u32))
    }

    /// The address whose 32-bit value is `bits`.
    pub fn from_bits(bits: u32) -> (ip: Ipv4Addr)
        ensures
            ip@ == bits,
    {
        Ipv4Addr(bits)
    }

    /// The 32-bit value of the address.
    pub fn to_bits(&self) -> (bits: u32)
        ensures
            bits == self@,
    {
        self.0
    }

    /// The address from its four octets, most significant first.
    pub fn from_octets(o: [u8; 4]) -> (ip: Ipv4Addr)
        ensures
            ip@ == octets_value(o@[0], o@[1], o@[2], o@[3]),
    {
        Self::new(o[0], o[1], o[2], o[3])
    }

    /// The four octets of the address, most significant first.
    pub fn octets(&self) -> (o: [u8; 4])
        ensures
            o@ == be_octets(self@),
    {
        be_bytes(self.0)
    }
}

/// Reading the octets of `a.b.c.d` gives back `a`, `b`, `c`, `d`.
pub proof fn lemma_octets_of_new(a: u8, b: u8, c: u8, d: u8)
    ensures
        0 <= octets_value(a, b, c, d) <= u32::MAX,
        be_octets(octets_value(a, b, c, d) as u32) == seq![a, b, c, d],
{
    let (a32, b32, c32, d32) = (a as u32, b as u32, c as u32, d as u32);
    let x: u32 = octets_value(a, b, c, d) as u32;
    assert(x == octets_value(a, b, c, d));
    assert(x / 16777216 == a32 && (x / 65536) % 256 == b32 && (x / 256) % 256 == c32 && x % 256
        == d32) by (bit_vector)
        requires
            a32 < 256,
            b32 < 256,
            c32 < 256,
            d32 < 256,
            x == a32 * 16777216 + b32 * 65536 + c32 * 256 + d32;
    assert(be_octets(x) =~= seq![a, b, c, d]);
}

/// Reading a number's octets back as a number gives the number.
pub proof fn lemma_value_of_octets(x: u32)
    ensures
        octets_value(be_octets(x)[0], be_octets(x)[1], be_octets(x)[2], be_octets(x)[3]) == x,
{
    assert((x / 16777216) * 16777216 + ((x / 65536) % 256) * 65536 + ((x / 256) % 256) * 256 + (x
        % 256) == x) by (bit_vector);
    assert(x / 16777216 < 256) by (bit_vector);
}

} // verus!
