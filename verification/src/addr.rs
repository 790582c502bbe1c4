//! IPv4 addresses and UDP endpoints.

use vstd::prelude::*;

verus! {

/// An IPv4 address, by its four octets in the order in which they are written
/// and sent.
#[derive(Clone, Copy, Debug, PartialEq, Eq, Structural)]
pub struct Ipv4Address {
    pub a: u8,
    pub b: u8,
    pub c: u8,
    pub d: u8,
}

impl View for Ipv4Address {
    type V = Seq<u8>;

    /// The octets, first to last.
    open spec fn view(&self) -> Seq<u8> {
        seq![self.a, self.b, self.c, self.d]
    }
}

/// An IPv4 address with a UDP port, the port as a number.
#[derive(Clone, Copy, Debug, PartialEq, Eq, Structural)]
pub struct SocketAddress {
    pub ip: Ipv4Address,
    pub port: u16,
}

/// The address 255.255.255.255.
pub open spec fn limited_broadcast() -> Ipv4Address {
    Ipv4Address { a: 255, b: 255, c: 255, d: 255 }
}

/// The address 0.0.0.0.
pub open spec fn unspecified() -> Ipv4Address {
    Ipv4Address { a: 0, b: 0, c: 0, d: 0 }
}

/// The multicast block 224.0.0.0/4.
pub open spec fn in_multicast_block(ip: Ipv4Address) -> bool {
    224 <= ip.a <= 239
}

/// The highest address of the network that `ip` and `mask` describe: every bit
/// that the mask leaves to the host is set.
pub open spec fn network_broadcast(ip: Ipv4Address, mask: Ipv4Address) -> Ipv4Address {
    Ipv4Address { a: ip.a | !mask.a, b: ip.b | !mask.b, c: ip.c | !mask.c, d: ip.d | !mask.d }
}

/// The number that two bytes in network order hold.
pub open spec fn be_value(hi: u8, lo: u8) -> int {
    hi * 256 + lo
}

impl Ipv4Address {
    /// The address with these four octets.
    pub fn new(a: u8, b: u8, c: u8, d: u8) -> (r: Ipv4Address)
        ensures
            r == (Ipv4Address { a, b, c, d }),
            r@ == seq![a, b, c, d],
    {
        Ipv4Address { a, b, c, d }
    }

    /// Whether this is 255.255.255.255.
    pub fn is_broadcast(&self) -> (r: bool)
        ensures
            r == (*self == limited_broadcast()),
    {
        self.a == 255 && self.b == 255 && self.c == 255 && self.d == 255
    }

    /// Whether this is a multicast address.
    pub fn is_multicast(&self) -> (r: bool)
        ensures
            r == in_multicast_block(*self),
    {
        224 <= self.a && self.a <= 239
    }

    /// Whether this is 0.0.0.0.
    pub fn is_unspecified(&self) -> (r: bool)
        ensures
            r == (*self == unspecified()),
    {
        self.a == 0 && self.b == 0 && self.c == 0 && self.d == 0
    }

    /// The broadcast address of the network that this address and `mask` span.
    pub fn broadcast_within(&self, mask: Ipv4Address) -> (r: Ipv4Address)
        ensures
            r == network_broadcast(*self, mask),
    {
        Ipv4Address {
            a: self.a | !mask.a,
            b: self.b | !mask.b,
            c: self.c | !mask.c,
            d: self.d | !mask.d,
        }
    }

    /// The octets, first to last.
    pub fn octets(&self) -> (r: [u8; 4])
        ensures
            r@ == self@,
            r@.len() == 4,
            r@[0] == self.a && r@[1] == self.b && r@[2] == self.c && r@[3] == self.d,
    {
        [self.a, self.b, self.c, self.d]
    }
}

/// The address that the kernel keeps as four bytes in network order.
pub fn ip_from_raw(raw: [u8; 4]) -> (r: Ipv4Address)
    ensures
        r@ == raw@,
        r.a == raw@[0] && r.b == raw@[1] && r.c == raw@[2] && r.d == raw@[3],
{
    let r = Ipv4Address { a: raw[0], b: raw[1], c: raw[2], d: raw[3] };
    assert(r@ =~= raw@);
    r
}

/// The port number that the kernel keeps as two bytes in network order.
pub fn port_from_raw(raw: [u8; 2]) -> (r: u16)
    ensures
        r == be_value(raw[0], raw[1]),
        r as int / 256 == raw@[0],
        r as int % 256 == raw@[1],
{
    raw[0] as u16 * 256 + raw[1] as u16
}

/// Setting the bits outside a mask keeps those inside it.
proof fn lemma_host_bits_set(octet: u8, mask: u8)
    by (bit_vector)
    ensures
        (octet | !mask) & mask == octet & mask,
        (octet | !mask) | mask == 255,
{
}

/// The broadcast address of a network lies in that network, and every bit that
/// the mask leaves to the host is set.
pub proof fn law_network_broadcast(ip: Ipv4Address, mask: Ipv4Address)
    ensures
        forall|i: int|
            0 <= i < 4 ==> (#[trigger] network_broadcast(ip, mask)@[i]) & mask@[i] == ip@[i]
                & mask@[i] && network_broadcast(ip, mask)@[i] | mask@[i] == 255,
{
    assert forall|i: int| 0 <= i < 4 implies (#[trigger] network_broadcast(ip, mask)@[i]) & mask@[i]
        == ip@[i] & mask@[i] && network_broadcast(ip, mask)@[i] | mask@[i] == 255 by {
        lemma_host_bits_set(ip@[i], mask@[i]);
    }
}


/// An address is told apart by its octets: 255.255.255.255 has every bit set and
/// 0.0.0.0 none, and the multicast addresses are those whose four highest bits
/// are 1110.
pub proof fn law_special_addresses(ip: Ipv4Address)
    ensures
        ip == limited_broadcast() <==> ip.a == 255 && ip.b == 255 && ip.c == 255 && ip.d == 255,
        ip == unspecified() <==> ip.a == 0 && ip.b == 0 && ip.c == 0 && ip.d == 0,
        in_multicast_block(ip) <==> ip.a & 0xf0 == 0xe0,
        ip@.len() == 4,
        ip@[0] == ip.a && ip@[1] == ip.b && ip@[2] == ip.c && ip@[3] == ip.d,
{
    let a = ip.a;
    assert((224 <= a && a <= 239) <==> a & 0xf0 == 0xe0) by (bit_vector);
}

/// The broadcast address of a network agrees with the address where the mask has
/// a bit, and has every other bit set.
pub proof fn law_broadcast_within(ip: Ipv4Address, mask: Ipv4Address)
    ensures
        ({
            let r = network_broadcast(ip, mask);
            &&& r.a & mask.a == ip.a & mask.a && r.a | mask.a == 255
            &&& r.b & mask.b == ip.b & mask.b && r.b | mask.b == 255
            &&& r.c & mask.c == ip.c & mask.c && r.c | mask.c == 255
            &&& r.d & mask.d == ip.d & mask.d && r.d | mask.d == 255
        }),
{
    lemma_host_bits_set(ip.a, mask.a);
    lemma_host_bits_set(ip.b, mask.b);
    lemma_host_bits_set(ip.c, mask.c);
    lemma_host_bits_set(ip.d, mask.d);
}

/// Two bytes in network order hold the number whose high byte comes first.
pub proof fn law_network_order(hi: u8, lo: u8)
    ensures
        be_value(hi, lo) / 256 == hi,
        be_value(hi, lo) % 256 == lo,
{
}

} // verus!
