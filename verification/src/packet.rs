//! The packet buffer: an IPv4 header, a UDP header, and the payload.

use crate::addr::{Ipv4Address, SocketAddress};
use crate::setup::Platform;
use vstd::prelude::*;

verus! {

/// Length of the IPv4 header.
pub const IPHEADER_LEN: u16 = 20;

/// Length of the UDP header.
pub const UDPHEADER_LEN: u16 = 8;

/// Where the payload starts.
pub const HEADER_LEN: u16 = IPHEADER_LEN + UDPHEADER_LEN;

/// Size of the packet buffer.
pub const GRAM_BUFFER_SIZE: usize = 4096;

/// The order in which the two bytes of a number are written.
#[derive(Clone, Copy, Debug, PartialEq, Eq, Structural)]
pub enum ByteOrder {
    Big,
    Little,
}

/// What the relay writes into the headers of a packet that it sends.
#[derive(Clone, Copy, Debug)]
pub struct Header {
    pub ttl: u8,
    pub from: SocketAddress,
    pub to: SocketAddress,
    /// Length of the payload.
    pub len: usize,
    /// The order of the two bytes of the total length.
    pub order: ByteOrder,
}

/// Byte `i` (0 or 1) of `value` in the order given.
pub open spec fn u16_byte(value: int, order: ByteOrder, i: int) -> u8 {
    if (order == ByteOrder::Big) == (i == 0) {
        (value / 256) as u8
    } else {
        (value % 256) as u8
    }
}

/// The byte that `header` puts at position `i` of the buffer; `None` where the
/// buffer keeps what it holds.
pub open spec fn header_byte(header: Header, i: int) -> Option<u8> {
    if 2 <= i < 4 {
        Some(u16_byte(HEADER_LEN + header.len, header.order, i - 2))
    } else if i == 8 {
        Some(header.ttl)
    } else if 12 <= i < 16 {
        Some(header.from.ip@[i - 12])
    } else if 16 <= i < 20 {
        Some(header.to.ip@[i - 16])
    } else if 20 <= i < 22 {
        Some(u16_byte(header.from.port as int, ByteOrder::Big, i - 20))
    } else if 22 <= i < 24 {
        Some(u16_byte(header.to.port as int, ByteOrder::Big, i - 22))
    } else if 24 <= i < 26 {
        Some(u16_byte(UDPHEADER_LEN + header.len, ByteOrder::Big, i - 24))
    } else {
        None
    }
}

/// `buffer` with `header` written over it.
pub open spec fn with_header(buffer: Seq<u8>, header: Header) -> Seq<u8> {
    Seq::new(
        buffer.len(),
        |i: int|
            match header_byte(header, i) {
                Some(byte) => byte,
                None => buffer[i],
            },
    )
}

/// The packet that is sent: the headers and `header.len` bytes of payload.
pub open spec fn frame(buffer: Seq<u8>, header: Header) -> Seq<u8> {
    with_header(buffer, header).take(HEADER_LEN + header.len)
}

/// Writes a number at `at`, two bytes.
fn put_u16(buffer: &mut [u8; GRAM_BUFFER_SIZE], at: usize, value: u16, order: ByteOrder)
    requires
        at + 2 <= GRAM_BUFFER_SIZE,
    ensures
        final(buffer)@ == old(buffer)@.update(at as int, u16_byte(value as int, order, 0)).update(
            at + 1,
            u16_byte(value as int, order, 1),
        ),
{
    let high: u8 = (value / 256) as u8;
    let low: u8 = (value % 256) as u8;
    match order {
        ByteOrder::Big => {
            buffer[at] = high;
            buffer[at + 1] = low;
        },
        ByteOrder::Little => {
            buffer[at] = low;
            buffer[at + 1] = high;
        },
    }
}

/// Writes an address at `at`, four bytes.
fn put_ip(buffer: &mut [u8; GRAM_BUFFER_SIZE], at: usize, ip: Ipv4Address)
    requires
        at + 4 <= GRAM_BUFFER_SIZE,
    ensures
        final(buffer)@ == old(buffer)@.update(at as int, ip.a).update(at + 1, ip.b).update(
            at + 2,
            ip.c,
        ).update(at + 3, ip.d),
{
    buffer[at] = ip.a;
    buffer[at + 1] = ip.b;
    buffer[at + 2] = ip.c;
    buffer[at + 3] = ip.d;
}

/// Writes `header` over the buffer and leaves every other byte as it is.
pub fn write_header(buffer: &mut [u8; GRAM_BUFFER_SIZE], header: Header)
    requires
        HEADER_LEN + header.len <= GRAM_BUFFER_SIZE,
    ensures
        final(buffer)@ == with_header(old(buffer)@, header),
{
    buffer[8] = header.ttl;
    put_ip(buffer, 12, header.from.ip);
    put_ip(buffer, 16, header.to.ip);
    put_u16(buffer, 20, header.from.port, ByteOrder::Big);
    put_u16(buffer, 22, header.to.port, ByteOrder::Big);
    put_u16(buffer, 24, UDPHEADER_LEN + header.len as u16, ByteOrder::Big);
    put_u16(buffer, 2, HEADER_LEN + header.len as u16, header.order);
    assert(buffer@ =~= with_header(old(buffer)@, header));
}

/// The order of the total length in a header that the kernel takes: macOS wants
/// it in the order of the machine, the others in network order.
pub fn total_length_order(platform: Platform, native: ByteOrder) -> (r: ByteOrder)
    ensures
        r == (if platform == Platform::MacOs {
            native
        } else {
            ByteOrder::Big
        }),
{
    match platform {
        Platform::MacOs => native,
        Platform::Linux | Platform::FreeBsd => ByteOrder::Big,
    }
}

/// The first bytes of a fresh buffer: a version 4 header for UDP without
/// options, an arbitrary identification, no checksums, and a sample payload.
pub open spec fn gram_start() -> Seq<u8> {
    seq![
        0x45, 0x00, 0x00, 0x26, 0x12, 0x34, 0x00, 0x00,
        0xFF, 0x11, 0, 0, 0, 0, 0, 0,
        0, 0, 0, 0, 0, 0, 0, 0,
        0x00, 0x12, 0x00, 0x00,
        0x31, 0x32, 0x33, 0x34, 0x35, 0x36, 0x37, 0x38, 0x39, 0x30,
    ]
}

/// What a fresh buffer holds: the first bytes, and zeros.
pub open spec fn fresh_buffer() -> Seq<u8> {
    gram_start() + Seq::new((GRAM_BUFFER_SIZE - 38) as nat, |i: int| 0u8)
}

/// A fresh packet buffer.
pub fn gram_buffer() -> (r: [u8; GRAM_BUFFER_SIZE])
    ensures
        r@ == fresh_buffer(),
{
    let start: [u8; 38] = [
        0x45, 0x00, 0x00, 0x26, 0x12, 0x34, 0x00, 0x00,
        0xFF, 0x11, 0, 0, 0, 0, 0, 0,
        0, 0, 0, 0, 0, 0, 0, 0,
        0x00, 0x12, 0x00, 0x00,
        0x31, 0x32, 0x33, 0x34, 0x35, 0x36, 0x37, 0x38, 0x39, 0x30,
    ];
    assert(start@ =~= gram_start());
    let mut buffer: [u8; GRAM_BUFFER_SIZE] = [0u8; GRAM_BUFFER_SIZE];
    for i in 0..38usize
        invariant
            start@ == gram_start(),
            forall|k: int| 0 <= k < i ==> buffer@[k] == gram_start()[k],
            forall|k: int| i <= k < GRAM_BUFFER_SIZE ==> buffer@[k] == 0,
    {
        buffer[i] = start[i];
    }
    assert(buffer@ =~= fresh_buffer());
    buffer
}

/// What the headers of a packet hold, byte by byte: the two lengths, the mark,
/// and both ends. Every other byte of the buffer stays as it was, and the packet
/// is as much of the buffer as the headers and the payload take.
pub proof fn law_header_bytes(buffer: Seq<u8>, header: Header, i: int)
    requires
        buffer.len() == 4096,
        28 + header.len <= 4096,
    ensures
        ({
            let r = with_header(buffer, header);
            let (from, to) = (header.from, header.to);
            &&& r.len() == 4096
            &&& header.order is Big ==> r[2] * 256 + r[3] == 28 + header.len
            &&& header.order is Little ==> r[3] * 256 + r[2] == 28 + header.len
            &&& r[8] == header.ttl
            &&& r[12] == from.ip.a && r[13] == from.ip.b && r[14] == from.ip.c && r[15]
                == from.ip.d
            &&& r[16] == to.ip.a && r[17] == to.ip.b && r[18] == to.ip.c && r[19] == to.ip.d
            &&& r[20] * 256 + r[21] == from.port
            &&& r[22] * 256 + r[23] == to.port
            &&& r[24] * 256 + r[25] == 8 + header.len
            &&& (0 <= i < 2 || 4 <= i < 8 || 9 <= i < 12 || 26 <= i < 4096) ==> r[i] == buffer[i]
        }),
        frame(buffer, header).len() == 28 + header.len,
        0 <= i < 28 + header.len ==> frame(buffer, header)[i] == with_header(buffer, header)[i],
{
}

/// A fresh buffer holds a version 4 header of twenty bytes for UDP, with the
/// lengths of a sample payload of ten digits, the largest time to live and no
/// checksums, and nothing behind the payload.
pub proof fn law_fresh_buffer(i: int)
    ensures
        fresh_buffer().len() == 4096,
        0 <= i < 4096 ==> fresh_buffer()[i] == (if i == 0 {
            0x45u8
        } else if i == 3 {
            38
        } else if i == 4 {
            0x12
        } else if i == 5 {
            0x34
        } else if i == 8 {
            255
        } else if i == 9 {
            17
        } else if i == 25 {
            18
        } else if 28 <= i < 37 {
            (49 + (i - 28)) as u8
        } else if i == 37 {
            48
        } else {
            0
        }),
{
}

} // verus!
