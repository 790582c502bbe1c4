//! What the relay makes of a datagram that it receives.

use crate::addr::{be_value, ip_from_raw, port_from_raw, Ipv4Address, SocketAddress};
use crate::interface::MachineIterface;
use crate::packet::{GRAM_BUFFER_SIZE, HEADER_LEN};
use vstd::prelude::*;

verus! {

/// What the kernel tells about a datagram, beside its bytes.
#[derive(Clone, Copy, Debug, PartialEq, Eq, Structural)]
pub enum ControlMessage {
    /// The time to live that the datagram arrived with.
    Ttl(i32),
    /// The interface that it arrived on and the address that it was sent to.
    PacketInfo { ifindex: i32, addr: Ipv4Address },
    /// The address that it was sent to.
    Destination(Ipv4Address),
    /// The interface that it arrived on.
    Interface(i32),
    /// Anything else.
    Other,
}

/// A receive call's result. The payload stands in the packet buffer, behind the
/// room for the headers.
#[derive(Debug)]
pub struct Received {
    /// What the call returned: the length of the payload, negative on failure.
    pub len: isize,
    /// The sender's address, in network order.
    pub sender_addr: [u8; 4],
    /// The sender's port, in network order.
    pub sender_port: [u8; 2],
    /// How many bytes of control messages came with the datagram.
    pub control_len: usize,
    /// The control messages, in the order in which they came.
    pub control: Vec<ControlMessage>,
}

/// A datagram to be relayed.
#[derive(Clone, Copy, Debug)]
pub struct ReceivedPacketInfo {
    pub originally_from: SocketAddress,
    pub originally_to_address: Ipv4Address,
    pub size_received: usize,
    pub from_interface: MachineIterface,
}

/// Why a datagram is not relayed.
#[derive(Clone, Copy, Debug, PartialEq, Eq, Structural)]
pub enum Dropped {
    /// Nothing was received.
    ReceiveFailed,
    /// There were no control messages.
    NoControlMessages,
    /// The time to live is not known.
    NoTtl,
    /// The interface that it came in on is not known.
    NoInterface,
    /// The address that it was sent to is not known.
    NoDestination,
    /// It carries the relay's own mark.
    Echo,
    /// It came in on an interface that the relay does not serve.
    UnmanagedInterface,
}

/// The time to live that the messages tell; the last word counts.
pub open spec fn told_ttl(control: Seq<ControlMessage>) -> Option<i32>
    decreases control.len(),
{
    if control.len() == 0 {
        None
    } else {
        match control.last() {
            ControlMessage::Ttl(ttl) => Some(ttl),
            _ => told_ttl(control.drop_last()),
        }
    }
}

/// The index of the interface that the messages tell; the last word counts.
pub open spec fn told_interface(control: Seq<ControlMessage>) -> Option<i32>
    decreases control.len(),
{
    if control.len() == 0 {
        None
    } else {
        match control.last() {
            ControlMessage::PacketInfo { ifindex, .. } => Some(ifindex),
            ControlMessage::Interface(ifindex) => Some(ifindex),
            _ => told_interface(control.drop_last()),
        }
    }
}

/// The destination that the messages tell; the last word counts.
pub open spec fn told_destination(control: Seq<ControlMessage>) -> Option<Ipv4Address>
    decreases control.len(),
{
    if control.len() == 0 {
        None
    } else {
        match control.last() {
            ControlMessage::PacketInfo { addr, .. } => Some(addr),
            ControlMessage::Destination(addr) => Some(addr),
            _ => told_destination(control.drop_last()),
        }
    }
}

/// The eight low bits of a time to live as the kernel reports it.
pub open spec fn ttl_byte(ttl: i32) -> u8 {
    (ttl as int % 256) as u8
}

/// The first interface with this index.
pub open spec fn with_index(interfaces: Seq<MachineIterface>, ifindex: i32) -> Option<
    MachineIterface,
>
    decreases interfaces.len(),
{
    if interfaces.len() == 0 {
        None
    } else if interfaces.first().ifindex == ifindex {
        Some(interfaces.first())
    } else {
        with_index(interfaces.drop_first(), ifindex)
    }
}

impl Received {
    /// A datagram arrived and the kernel told all that the relay has to know.
    pub open spec fn is_complete(&self) -> bool {
        &&& self.len > 0
        &&& self.control_len != 0
        &&& told_ttl(self.control@) is Some
        &&& told_interface(self.control@) is Some
        &&& told_destination(self.control@) is Some
    }

    /// Where the zero byte behind the payload goes: as far behind its end as the
    /// headers are long.
    pub open spec fn terminator(&self) -> int {
        2 * HEADER_LEN + self.len
    }

    /// The buffer with a zero byte behind the payload, once everything about
    /// the datagram is known. A payload that leaves no room for it goes without.
    pub open spec fn ended(&self, buffer: Seq<u8>) -> Seq<u8> {
        if self.is_complete() && self.terminator() < GRAM_BUFFER_SIZE {
            buffer.update(self.terminator(), 0)
        } else {
            buffer
        }
    }

    /// Whether the headers and the payload of a datagram about which everything
    /// is known have room in the buffer.
    pub open spec fn fits(&self) -> bool {
        self.is_complete() ==> HEADER_LEN + self.len <= GRAM_BUFFER_SIZE
    }

    /// Who sent the datagram.
    pub open spec fn sender(&self) -> SocketAddress {
        SocketAddress {
            ip: Ipv4Address {
                a: self.sender_addr@[0],
                b: self.sender_addr@[1],
                c: self.sender_addr@[2],
                d: self.sender_addr@[3],
            },
            port: be_value(self.sender_port@[0], self.sender_port@[1]) as u16,
        }
    }

    /// What becomes of the datagram in a relay that marks its packets with
    /// `ttl`.
    pub open spec fn outcome(&self, interfaces: Seq<MachineIterface>, ttl: u8) -> Result<
        ReceivedPacketInfo,
        Dropped,
    > {
        if self.len <= 0 {
            Err(Dropped::ReceiveFailed)
        } else if self.control_len == 0 {
            Err(Dropped::NoControlMessages)
        } else {
            match (
                told_ttl(self.control@),
                told_interface(self.control@),
                told_destination(self.control@),
            ) {
                (None, _, _) => Err(Dropped::NoTtl),
                (_, None, _) => Err(Dropped::NoInterface),
                (_, _, None) => Err(Dropped::NoDestination),
                (Some(received_ttl), Some(ifindex), Some(to)) => if ttl_byte(received_ttl) == ttl {
                    Err(Dropped::Echo)
                } else {
                    match with_index(interfaces, ifindex) {
                        None => Err(Dropped::UnmanagedInterface),
                        Some(from_interface) => Ok(
                            ReceivedPacketInfo {
                                originally_from: self.sender(),
                                originally_to_address: to,
                                size_received: self.len as usize,
                                from_interface,
                            },
                        ),
                    }
                },
            }
        }
    }
}

/// What the control messages tell together.
#[derive(Clone, Copy, Debug)]
pub struct Told {
    pub ttl: Option<i32>,
    pub interface: Option<i32>,
    pub destination: Option<Ipv4Address>,
}

/// Reads the control messages in order.
pub fn read_control(control: &Vec<ControlMessage>) -> (r: Told)
    ensures
        r.ttl == told_ttl(control@),
        r.interface == told_interface(control@),
        r.destination == told_destination(control@),
{
    let mut told = Told { ttl: None, interface: None, destination: None };
    for i in 0..control.len()
        invariant
            told.ttl == told_ttl(control@.take(i as int)),
            told.interface == told_interface(control@.take(i as int)),
            told.destination == told_destination(control@.take(i as int)),
    {
        assert(control@.take(i + 1).drop_last() =~= control@.take(i as int));
        match control[i] {
            ControlMessage::Ttl(ttl) => {
                told.ttl = Some(ttl);
            },
            ControlMessage::PacketInfo { ifindex, addr } => {
                told.interface = Some(ifindex);
                told.destination = Some(addr);
            },
            ControlMessage::Destination(addr) => {
                told.destination = Some(addr);
            },
            ControlMessage::Interface(ifindex) => {
                told.interface = Some(ifindex);
            },
            ControlMessage::Other => {},
        }
    }
    assert(control@.take(control@.len() as int) =~= control@);
    told
}

/// Finds the first interface with this index.
fn find_interface(interfaces: &Vec<MachineIterface>, ifindex: i32) -> (r: Option<MachineIterface>)
    ensures
        r == with_index(interfaces@, ifindex),
{
    assert(interfaces@.skip(0) =~= interfaces@);
    for i in 0..interfaces.len()
        invariant
            with_index(interfaces@, ifindex) == with_index(interfaces@.skip(i as int), ifindex),
    {
        assert(interfaces@.skip(i as int).drop_first() =~= interfaces@.skip(i + 1));
        if interfaces[i].ifindex == ifindex {
            return Some(interfaces[i]);
        }
    }
    None
}

/// Whether the payload is longer than the room for it in the buffer, so that the
/// datagram cannot be relayed.
pub fn overruns_buffer(received: &Received) -> (r: bool)
    ensures
        r == !received.fits(),
{
    let told = read_control(&received.control);
    received.len > 0 && received.control_len != 0 && told.ttl.is_some() && told.interface.is_some()
        && told.destination.is_some() && received.len as usize > GRAM_BUFFER_SIZE
        - HEADER_LEN as usize
}

/// Decides what becomes of a datagram, and writes a zero byte behind its payload
/// in the buffer once everything about it is known.
pub fn receive_broadcast(
    received: &Received,
    interfaces: &Vec<MachineIterface>,
    ttl: u8,
    packet_buffer: &mut [u8; GRAM_BUFFER_SIZE],
) -> (r: Result<ReceivedPacketInfo, Dropped>)
    ensures
        r == received.outcome(interfaces@, ttl),
        final(packet_buffer)@ == received.ended(old(packet_buffer)@),
{
    if received.len <= 0 {
        return Err(Dropped::ReceiveFailed);
    }
    let len: usize = received.len as usize;
    let originally_from = SocketAddress {
        ip: ip_from_raw(received.sender_addr),
        port: port_from_raw(received.sender_port),
    };
    proof {
        let ip = originally_from.ip;
        assert(ip@[0] == ip.a && ip@[1] == ip.b && ip@[2] == ip.c && ip@[3] == ip.d);
        assert(originally_from == received.sender());
    }
    if received.control_len == 0 {
        return Err(Dropped::NoControlMessages);
    }
    let told = read_control(&received.control);
    let received_ttl: i32 = match told.ttl {
        Some(ttl) => ttl,
        None => {
            return Err(Dropped::NoTtl);
        },
    };
    let ifindex: i32 = match told.interface {
        Some(ifindex) => ifindex,
        None => {
            return Err(Dropped::NoInterface);
        },
    };
    let originally_to_address = match told.destination {
        Some(addr) => addr,
        None => {
            return Err(Dropped::NoDestination);
        },
    };
    let from_interface = find_interface(interfaces, ifindex);
    if len < GRAM_BUFFER_SIZE - 2 * HEADER_LEN as usize {
        packet_buffer[2 * HEADER_LEN as usize + len] = 0;
    }
    let received_byte: u8 = #[verifier::truncate] (received_ttl as u8);
    assert(received_byte == ttl_byte(received_ttl)) by {
        assert(received_ttl as u8 == (received_ttl & 0xff) as u8) by (bit_vector);
        assert((received_ttl & 0xff) == received_ttl % 256) by (bit_vector);
    }
    if received_byte == ttl {
        return Err(Dropped::Echo);
    }
    match from_interface {
        None => Err(Dropped::UnmanagedInterface),
        Some(from_interface) => Ok(
            ReceivedPacketInfo {
                originally_from,
                originally_to_address,
                size_received: len,
                from_interface,
            },
        ),
    }
}

/// Of the messages that tell something, the last counts; where there is none, it
/// is not told.
pub proof fn law_last_word_counts(control: Seq<ControlMessage>, k: int)
    requires
        0 <= k < control.len(),
    ensures
        (forall|j: int| 0 <= j < control.len() ==> !(#[trigger] control[j] is Ttl)) <==> told_ttl(
            control,
        ) is None,
        (forall|j: int| k < j < control.len() ==> !(#[trigger] control[j] is Ttl)) ==> (
        control[k] matches ControlMessage::Ttl(ttl) ==> told_ttl(control) == Some(ttl)),
        (forall|j: int|
            0 <= j < control.len() ==> !(#[trigger] control[j] is PacketInfo) && !(
            control[j] is Interface)) <==> told_interface(control) is None,
        (forall|j: int|
            k < j < control.len() ==> !(#[trigger] control[j] is PacketInfo) && !(
            control[j] is Interface)) ==> match control[k] {
            ControlMessage::PacketInfo { ifindex, .. } => told_interface(control) == Some(ifindex),
            ControlMessage::Interface(ifindex) => told_interface(control) == Some(ifindex),
            _ => true,
        },
        (forall|j: int|
            0 <= j < control.len() ==> !(#[trigger] control[j] is PacketInfo) && !(
            control[j] is Destination)) <==> told_destination(control) is None,
        (forall|j: int|
            k < j < control.len() ==> !(#[trigger] control[j] is PacketInfo) && !(
            control[j] is Destination)) ==> match control[k] {
            ControlMessage::PacketInfo { addr, .. } => told_destination(control) == Some(addr),
            ControlMessage::Destination(addr) => told_destination(control) == Some(addr),
            _ => true,
        },
    decreases control.len(),
{
    let front = control.drop_last();
    let last = control.len() - 1;
    assert(control[last] == control.last());
    assert(forall|j: int| 0 <= j < last ==> #[trigger] front[j] == control[j]);
    if last > 0 {
        let m: int = if k < last {
            k
        } else {
            0
        };
        law_last_word_counts(front, m);
        assert(forall|j: int| 0 <= j < last ==> #[trigger] control[j] == front[j]);
    } else {
        assert(front.len() == 0);
    }
}

/// The interface that a number stands for is the first that has it.
pub proof fn law_first_with_index(interfaces: Seq<MachineIterface>, ifindex: i32, p: int)
    requires
        0 <= p <= interfaces.len(),
        forall|j: int| 0 <= j < p ==> (#[trigger] interfaces[j]).ifindex != ifindex,
    ensures
        p < interfaces.len() && interfaces[p].ifindex == ifindex ==> with_index(
            interfaces,
            ifindex,
        ) == Some(interfaces[p]),
        p == interfaces.len() ==> with_index(interfaces, ifindex) is None,
    decreases p,
{
    if p > 0 {
        let rest = interfaces.drop_first();
        assert(interfaces[0].ifindex != ifindex);
        assert forall|j: int| 0 <= j < p - 1 implies (#[trigger] rest[j]).ifindex != ifindex by {
            assert(rest[j] == interfaces[j + 1]);
        }
        law_first_with_index(rest, ifindex, p - 1);
        if p < interfaces.len() {
            assert(rest[p - 1] == interfaces[p]);
        }
    }
}

/// What is made of a datagram about which everything is known. The messages at
/// `t`, `i` and `d` are the last that tell its time to live, its interface and
/// its destination. It is an echo if the low byte of its time to live is the
/// mark. Otherwise it is relayed if it came in on a served interface: from the
/// sender that the kernel told, to the destination that the kernel told, with all
/// of its bytes, and from the first interface with that number.
pub proof fn law_known_datagram(
    received: Received,
    interfaces: Seq<MachineIterface>,
    ttl: u8,
    t: int,
    i: int,
    d: int,
    p: int,
)
    requires
        received.len > 0,
        received.control_len != 0,
        0 <= t < received.control@.len(),
        received.control@[t] is Ttl,
        forall|j: int|
            t < j < received.control@.len() ==> !(#[trigger] received.control@[j] is Ttl),
        0 <= i < received.control@.len(),
        received.control@[i] is PacketInfo || received.control@[i] is Interface,
        forall|j: int|
            i < j < received.control@.len() ==> !(#[trigger] received.control@[j] is PacketInfo)
                && !(received.control@[j] is Interface),
        0 <= d < received.control@.len(),
        received.control@[d] is PacketInfo || received.control@[d] is Destination,
        forall|j: int|
            d < j < received.control@.len() ==> !(#[trigger] received.control@[j] is PacketInfo)
                && !(received.control@[j] is Destination),
        0 <= p <= interfaces.len(),
        ({
            let ifindex = match received.control@[i] {
                ControlMessage::PacketInfo { ifindex, .. } => ifindex,
                _ => received.control@[i]->Interface_0,
            };
            &&& forall|j: int| 0 <= j < p ==> (#[trigger] interfaces[j]).ifindex != ifindex
            &&& p < interfaces.len() ==> interfaces[p].ifindex == ifindex
        }),
    ensures
        ({
            let echo = received.control@[t]->Ttl_0 as int % 256 == ttl;
            let to = match received.control@[d] {
                ControlMessage::PacketInfo { addr, .. } => addr,
                _ => received.control@[d]->Destination_0,
            };
            match received.outcome(interfaces, ttl) {
                Err(dropped) => if echo {
                    dropped == Dropped::Echo
                } else {
                    p == interfaces.len() && dropped == Dropped::UnmanagedInterface
                },
                Ok(info) => {
                    &&& !echo
                    &&& p < interfaces.len()
                    &&& info.from_interface == interfaces[p]
                    &&& info.originally_to_address == to
                    &&& info.size_received == received.len
                    &&& info.originally_from.ip.a == received.sender_addr@[0]
                    &&& info.originally_from.ip.b == received.sender_addr@[1]
                    &&& info.originally_from.ip.c == received.sender_addr@[2]
                    &&& info.originally_from.ip.d == received.sender_addr@[3]
                    &&& info.originally_from.port == received.sender_port@[0] * 256
                        + received.sender_port@[1]
                },
            }
        }),
        received.is_complete(),
{
    let control = received.control@;
    law_last_word_counts(control, t);
    law_last_word_counts(control, i);
    law_last_word_counts(control, d);
    law_first_with_index(interfaces, told_interface(control)->0, p);
}

/// What is made of a datagram about which something is not known: the first thing
/// that is missing is complained about.
pub proof fn law_unknown_datagram(received: Received, interfaces: Seq<MachineIterface>, ttl: u8)
    ensures
        ({
            let control = received.control@;
            let no_ttl = forall|j: int|
                0 <= j < control.len() ==> !(#[trigger] control[j] is Ttl);
            let no_interface = forall|j: int|
                0 <= j < control.len() ==> !(#[trigger] control[j] is PacketInfo) && !(
                control[j] is Interface);
            let no_destination = forall|j: int|
                0 <= j < control.len() ==> !(#[trigger] control[j] is PacketInfo) && !(
                control[j] is Destination);
            let r = received.outcome(interfaces, ttl);
            &&& received.is_complete() <==> received.len > 0 && received.control_len != 0
                && !no_ttl && !no_interface && !no_destination
            &&& if received.len <= 0 {
                r == Err::<ReceivedPacketInfo, Dropped>(Dropped::ReceiveFailed)
            } else if received.control_len == 0 {
                r == Err::<ReceivedPacketInfo, Dropped>(Dropped::NoControlMessages)
            } else if no_ttl {
                r == Err::<ReceivedPacketInfo, Dropped>(Dropped::NoTtl)
            } else if no_interface {
                r == Err::<ReceivedPacketInfo, Dropped>(Dropped::NoInterface)
            } else if no_destination {
                r == Err::<ReceivedPacketInfo, Dropped>(Dropped::NoDestination)
            } else {
                true
            }
        }),
{
    if received.control@.len() > 0 {
        law_last_word_counts(received.control@, 0);
    }
}

/// Taking a datagram changes at most one byte of the buffer: once everything about
/// the datagram is known, the byte 56 behind the length of its payload is zero, if
/// there is such a byte. A datagram has room if it takes no more than 4068 bytes,
/// and one about which something is not known needs none.
pub proof fn law_zero_behind_payload(received: Received, buffer: Seq<u8>, i: int)
    requires
        buffer.len() == 4096,
        0 <= i < 4096,
    ensures
        received.ended(buffer).len() == 4096,
        received.ended(buffer)[i] == (if received.is_complete() && i == 56 + received.len {
            0u8
        } else {
            buffer[i]
        }),
        received.fits() <==> !received.is_complete() || received.len <= 4068,
{
}

} // verus!
