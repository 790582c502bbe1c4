//! Which addresses a relayed packet carries.

use crate::addr::{limited_broadcast, Ipv4Address, SocketAddress};
use crate::interface::MachineIterface;
use vstd::prelude::*;

verus! {

/// How the source of a relayed packet is forged.
#[derive(Clone, Copy, Debug, PartialEq, Eq, Structural)]
pub enum SpoofFromAddrMode {
    /// The address of the outgoing interface, and the relayed port.
    BroadcastPort,
    /// The address of the outgoing interface, and the port of the sender.
    SourcePort,
    /// This address, and the port of the sender.
    Other(Ipv4Address),
}

/// How the destination of a relayed packet is replaced.
#[derive(Clone, Copy, Debug, PartialEq, Eq, Structural)]
pub enum SpoofDestAddrMode {
    /// The broadcast address of the outgoing interface.
    NewInterfaceBroadcast,
    /// This address.
    Other(Ipv4Address),
}

/// The source address was 255.255.255.255, which no packet may come from.
#[derive(Clone, Copy, Debug, PartialEq, Eq, Structural)]
pub struct InvalidSourceIp {
    pub source: Ipv4Address,
}

/// What a source address on the command line asks for. 1.1.1.1 and 1.1.1.2
/// stand for the two ways to use the address of the outgoing interface.
pub open spec fn source_mode_of(source_ip: Option<Ipv4Address>) -> Result<
    Option<SpoofFromAddrMode>,
    InvalidSourceIp,
> {
    match source_ip {
        None => Ok(None),
        Some(source) => if source == limited_broadcast() {
            Err(InvalidSourceIp { source })
        } else if source@ == seq![1u8, 1, 1, 1] {
            Ok(Some(SpoofFromAddrMode::BroadcastPort))
        } else if source@ == seq![1u8, 1, 1, 2] {
            Ok(Some(SpoofFromAddrMode::SourcePort))
        } else {
            Ok(Some(SpoofFromAddrMode::Other(source)))
        },
    }
}

/// What a target address on the command line asks for. 255.255.255.255 stands
/// for the broadcast address of the outgoing interface.
pub open spec fn target_mode_of(target_ip: Option<Ipv4Address>) -> Option<SpoofDestAddrMode> {
    match target_ip {
        None => None,
        Some(target) => if target == limited_broadcast() {
            Some(SpoofDestAddrMode::NewInterfaceBroadcast)
        } else {
            Some(SpoofDestAddrMode::Other(target))
        },
    }
}

/// The source of a packet that leaves through `interface`.
pub open spec fn source_of(
    mode: Option<SpoofFromAddrMode>,
    interface: MachineIterface,
    port: u16,
    sender: SocketAddress,
) -> SocketAddress {
    match mode {
        None => sender,
        Some(SpoofFromAddrMode::BroadcastPort) => SocketAddress {
            ip: interface.interface_addr,
            port,
        },
        Some(SpoofFromAddrMode::SourcePort) => SocketAddress {
            ip: interface.interface_addr,
            port: sender.port,
        },
        Some(SpoofFromAddrMode::Other(ip)) => SocketAddress { ip, port: sender.port },
    }
}

/// The destination of a packet that leaves through `interface`, when it came in
/// through `from` and was sent to `originally_to`. A packet to everyone on the
/// network that it came from goes to everyone on the network that it enters.
pub open spec fn target_of(
    mode: Option<SpoofDestAddrMode>,
    interface: MachineIterface,
    from: MachineIterface,
    originally_to: Ipv4Address,
) -> Ipv4Address {
    match mode {
        Some(SpoofDestAddrMode::NewInterfaceBroadcast) => interface.destination_addr,
        Some(SpoofDestAddrMode::Other(target)) => target,
        None => if originally_to == limited_broadcast() || originally_to
            == from.destination_addr {
            interface.destination_addr
        } else {
            originally_to
        },
    }
}

/// Reads a source address given on the command line.
pub fn source_mode(source_ip: Option<Ipv4Address>) -> (r: Result<
    Option<SpoofFromAddrMode>,
    InvalidSourceIp,
>)
    ensures
        r == source_mode_of(source_ip),
{
    match source_ip {
        None => Ok(None),
        Some(source) => {
            proof {
                if source == (Ipv4Address { a: 1, b: 1, c: 1, d: 1 }) {
                    assert(source@ =~= seq![1u8, 1, 1, 1]);
                }
                if source == (Ipv4Address { a: 1, b: 1, c: 1, d: 2 }) {
                    assert(source@ =~= seq![1u8, 1, 1, 2]);
                }
                assert(source@[0] == source.a && source@[1] == source.b && source@[2] == source.c
                    && source@[3] == source.d);
                assert(seq![1u8, 1, 1, 2][3] == 2);
            }
            if source.is_broadcast() {
                Err(InvalidSourceIp { source })
            } else if source == Ipv4Address::new(1, 1, 1, 1) {
                Ok(Some(SpoofFromAddrMode::BroadcastPort))
            } else if source == Ipv4Address::new(1, 1, 1, 2) {
                Ok(Some(SpoofFromAddrMode::SourcePort))
            } else {
                Ok(Some(SpoofFromAddrMode::Other(source)))
            }
        },
    }
}

/// Reads a target address given on the command line.
pub fn target_mode(target_ip: Option<Ipv4Address>) -> (r: Option<SpoofDestAddrMode>)
    ensures
        r == target_mode_of(target_ip),
{
    match target_ip {
        None => None,
        Some(target) => if target.is_broadcast() {
            Some(SpoofDestAddrMode::NewInterfaceBroadcast)
        } else {
            Some(SpoofDestAddrMode::Other(target))
        },
    }
}

/// The source to put on a packet that leaves through `interface`.
pub fn source_address(
    mode: Option<SpoofFromAddrMode>,
    interface: &MachineIterface,
    port: u16,
    sender: SocketAddress,
) -> (r: SocketAddress)
    ensures
        r == source_of(mode, *interface, port, sender),
{
    match mode {
        Some(SpoofFromAddrMode::BroadcastPort) => SocketAddress {
            ip: interface.interface_addr,
            port,
        },
        Some(SpoofFromAddrMode::SourcePort) => SocketAddress {
            ip: interface.interface_addr,
            port: sender.port,
        },
        Some(SpoofFromAddrMode::Other(source)) => SocketAddress { ip: source, port: sender.port },
        None => sender,
    }
}

/// The destination to put on a packet that leaves through `interface`.
pub fn target_address(
    mode: Option<SpoofDestAddrMode>,
    interface: &MachineIterface,
    from: &MachineIterface,
    originally_to: Ipv4Address,
) -> (r: Ipv4Address)
    ensures
        r == target_of(mode, *interface, *from, originally_to),
{
    match mode {
        Some(SpoofDestAddrMode::NewInterfaceBroadcast) => interface.destination_addr,
        Some(SpoofDestAddrMode::Other(target)) => target,
        None => if originally_to.is_broadcast() || originally_to == from.destination_addr {
            interface.destination_addr
        } else {
            originally_to
        },
    }
}

/// What a source on the command line means for a packet. Without one, the sender
/// stays the sender. 255.255.255.255 is refused. 1.1.1.1 and 1.1.1.2 stand for
/// the address of the outgoing interface, the first with the relayed port and
/// the second with the port of the sender. Any other address stands for itself,
/// with the port of the sender.
pub proof fn law_source_given(
    ip: Ipv4Address,
    interface: MachineIterface,
    port: u16,
    sender: SocketAddress,
)
    ensures
        source_mode_of(None) == Ok::<Option<SpoofFromAddrMode>, InvalidSourceIp>(None),
        source_of(None, interface, port, sender) == sender,
        ip.a == 255 && ip.b == 255 && ip.c == 255 && ip.d == 255 <==> source_mode_of(
            Some(ip),
        ) is Err,
        source_mode_of(Some(ip)) matches Err(error) ==> error.source == ip,
        source_mode_of(Some(ip)) matches Ok(mode) ==> mode is Some && {
            let r = source_of(mode, interface, port, sender);
            if ip.a == 1 && ip.b == 1 && ip.c == 1 && ip.d == 1 {
                mode == Some(SpoofFromAddrMode::BroadcastPort) && r.ip == interface.interface_addr
                    && r.port == port
            } else if ip.a == 1 && ip.b == 1 && ip.c == 1 && ip.d == 2 {
                mode == Some(SpoofFromAddrMode::SourcePort) && r.ip == interface.interface_addr
                    && r.port == sender.port
            } else {
                mode == Some(SpoofFromAddrMode::Other(ip)) && r.ip == ip && r.port == sender.port
            }
        },
{
    let text = ip@;
    assert(text[0] == ip.a && text[1] == ip.b && text[2] == ip.c && text[3] == ip.d);
    assert(seq![1u8, 1, 1, 1][3] == 1 && seq![1u8, 1, 1, 2][3] == 2);
    assert(ip.a == 1 && ip.b == 1 && ip.c == 1 && ip.d == 1 ==> text =~= seq![1u8, 1, 1, 1]);
    assert(ip.a == 1 && ip.b == 1 && ip.c == 1 && ip.d == 2 ==> text =~= seq![1u8, 1, 1, 2]);
}

/// What each way to forge the source puts on a packet, whatever address it names.
pub proof fn law_source_forged(
    ip: Ipv4Address,
    interface: MachineIterface,
    port: u16,
    sender: SocketAddress,
)
    ensures
        ({
            let r = source_of(Some(SpoofFromAddrMode::BroadcastPort), interface, port, sender);
            r.ip == interface.interface_addr && r.port == port
        }),
        ({
            let r = source_of(Some(SpoofFromAddrMode::SourcePort), interface, port, sender);
            r.ip == interface.interface_addr && r.port == sender.port
        }),
        ({
            let r = source_of(Some(SpoofFromAddrMode::Other(ip)), interface, port, sender);
            r.ip == ip && r.port == sender.port
        }),
{
}

/// What a target on the command line means for a packet. 255.255.255.255 stands
/// for the broadcast address of the outgoing interface, and any other address for
/// itself. Without one, a packet that was for everyone, or for everyone on the
/// network that it came from, goes to everyone on the network that it enters, and
/// any other goes where it was sent to.
pub proof fn law_target_given(
    ip: Ipv4Address,
    interface: MachineIterface,
    from: MachineIterface,
    to: Ipv4Address,
)
    ensures
        target_mode_of(None) is None,
        target_mode_of(Some(ip)) == Some(
            if ip.a == 255 && ip.b == 255 && ip.c == 255 && ip.d == 255 {
                SpoofDestAddrMode::NewInterfaceBroadcast
            } else {
                SpoofDestAddrMode::Other(ip)
            },
        ),
        target_of(Some(SpoofDestAddrMode::NewInterfaceBroadcast), interface, from, to)
            == interface.destination_addr,
        target_of(Some(SpoofDestAddrMode::Other(ip)), interface, from, to) == ip,
        to.a == 255 && to.b == 255 && to.c == 255 && to.d == 255 ==> target_of(
            None,
            interface,
            from,
            to,
        ) == interface.destination_addr,
        to == from.destination_addr ==> target_of(None, interface, from, to)
            == interface.destination_addr,
        to != from.destination_addr && !(to.a == 255 && to.b == 255 && to.c == 255 && to.d == 255)
            ==> target_of(None, interface, from, to) == to,
{
}

} // verus!
