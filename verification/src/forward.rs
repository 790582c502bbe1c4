//! How a received datagram is sent on.

use crate::addr::{in_multicast_block, limited_broadcast, SocketAddress};
use crate::interface::MachineIterface;
use crate::packet::{
    frame, with_header, write_header, ByteOrder, Header, GRAM_BUFFER_SIZE, HEADER_LEN,
};
use crate::receive::ReceivedPacketInfo;
use crate::spoof::{
    source_address, source_of, target_address, target_of, SpoofDestAddrMode, SpoofFromAddrMode,
};
use vstd::prelude::*;

verus! {

/// How a relay sends packets on.
#[derive(Clone, Copy, Debug)]
pub struct ForwardRules {
    pub from_spoof_mode: Option<SpoofFromAddrMode>,
    pub dest_spoof_mode: Option<SpoofDestAddrMode>,
    /// The relayed port.
    pub port: u16,
    /// The mark on every packet that the relay sends.
    pub ttl: u8,
    /// The order in which the kernel takes the total length.
    pub order: ByteOrder,
}

/// A packet to be sent.
#[derive(Debug)]
pub struct Transmission {
    /// The position of the outgoing interface in the list of interfaces.
    pub interface: usize,
    /// Who the packet comes from.
    pub from: SocketAddress,
    /// Where the packet goes.
    pub to: SocketAddress,
    /// The packet, headers first.
    pub frame: Vec<u8>,
}

/// A [`Transmission`] in specifications.
#[verifier::ext_equal]
pub struct TransmissionView {
    pub interface: int,
    pub from: SocketAddress,
    pub to: SocketAddress,
    pub frame: Seq<u8>,
}

impl View for Transmission {
    type V = TransmissionView;

    open spec fn view(&self) -> TransmissionView {
        TransmissionView {
            interface: self.interface as int,
            from: self.from,
            to: self.to,
            frame: self.frame@,
        }
    }
}

/// Transmissions in specifications.
pub open spec fn views(transmissions: Seq<Transmission>) -> Seq<TransmissionView> {
    transmissions.map_values(|t: Transmission| t@)
}

impl ForwardRules {
    /// Whether packets are redirected to an address that a single host has.
    pub open spec fn redirects_to_one_host(self) -> bool {
        self.dest_spoof_mode matches Some(SpoofDestAddrMode::Other(target)) && target
            != limited_broadcast() && !in_multicast_block(target)
    }

    /// Whether a packet that came in through `from` leaves through `interface`.
    /// It does not go back where it came from, unless it is redirected to a
    /// single host.
    pub open spec fn leaves_through(
        self,
        interface: MachineIterface,
        from: MachineIterface,
    ) -> bool {
        interface != from || self.redirects_to_one_host()
    }

    /// The headers of a packet that leaves through `interface`.
    pub open spec fn header_for(
        self,
        interface: MachineIterface,
        info: ReceivedPacketInfo,
    ) -> Header {
        Header {
            ttl: self.ttl,
            from: source_of(
                self.from_spoof_mode,
                interface,
                self.port,
                info.originally_from,
            ),
            to: SocketAddress {
                ip: target_of(
                    self.dest_spoof_mode,
                    interface,
                    info.from_interface,
                    info.originally_to_address,
                ),
                port: self.port,
            },
            len: info.size_received,
            order: self.order,
        }
    }

    /// The packets to be sent, when `buffer` holds the payload.
    pub open spec fn transmissions(
        self,
        buffer: Seq<u8>,
        interfaces: Seq<MachineIterface>,
        info: ReceivedPacketInfo,
    ) -> Seq<TransmissionView>
        decreases interfaces.len(),
    {
        if interfaces.len() == 0 {
            seq![]
        } else {
            let before = self.transmissions(buffer, interfaces.drop_last(), info);
            if self.leaves_through(interfaces.last(), info.from_interface) {
                let header = self.header_for(interfaces.last(), info);
                before.push(
                    TransmissionView {
                        interface: interfaces.len() - 1,
                        from: header.from,
                        to: header.to,
                        frame: frame(buffer, header),
                    },
                )
            } else {
                before
            }
        }
    }

    /// The buffer once the packets are sent: it holds the headers of the last.
    pub open spec fn buffer_after(
        self,
        buffer: Seq<u8>,
        interfaces: Seq<MachineIterface>,
        info: ReceivedPacketInfo,
    ) -> Seq<u8>
        decreases interfaces.len(),
    {
        if interfaces.len() == 0 {
            buffer
        } else if self.leaves_through(interfaces.last(), info.from_interface) {
            with_header(buffer, self.header_for(interfaces.last(), info))
        } else {
            self.buffer_after(buffer, interfaces.drop_last(), info)
        }
    }
}

/// Whether the packet leaves through `interface`.
pub fn leaves_through(
    rules: ForwardRules,
    interface: &MachineIterface,
    from: &MachineIterface,
) -> (r: bool)
    ensures
        r == rules.leaves_through(*interface, *from),
{
    let same_interface = *interface == *from;
    match rules.dest_spoof_mode {
        Some(SpoofDestAddrMode::Other(target)) => !same_interface || (!target.is_broadcast()
            && !target.is_multicast()),
        Some(SpoofDestAddrMode::NewInterfaceBroadcast) | None => !same_interface,
    }
}

/// The headers only depend on the last ones written.
proof fn lemma_header_replaced(buffer: Seq<u8>, first: Header, second: Header)
    ensures
        with_header(with_header(buffer, first), second) == with_header(buffer, second),
{
    assert(with_header(with_header(buffer, first), second) =~= with_header(buffer, second));
}

/// Writing headers over those already written gives the packets that a fresh
/// buffer gives.
pub(crate) proof fn lemma_frame_after(
    rules: ForwardRules,
    buffer: Seq<u8>,
    interfaces: Seq<MachineIterface>,
    info: ReceivedPacketInfo,
    header: Header,
)
    ensures
        with_header(rules.buffer_after(buffer, interfaces, info), header) == with_header(
            buffer,
            header,
        ),
    decreases interfaces.len(),
{
    if interfaces.len() > 0 {
        if rules.leaves_through(interfaces.last(), info.from_interface) {
            lemma_header_replaced(
                buffer,
                rules.header_for(interfaces.last(), info),
                header,
            );
        } else {
            lemma_frame_after(rules, buffer, interfaces.drop_last(), info, header);
        }
    }
}

/// Writes the packet for each interface that it leaves through, in order.
pub fn forward_packet(
    interfaces: &Vec<MachineIterface>,
    rules: ForwardRules,
    packet_buffer: &mut [u8; GRAM_BUFFER_SIZE],
    packet_info: &ReceivedPacketInfo,
) -> (r: Vec<Transmission>)
    requires
        forall|i: int|
            0 <= i < interfaces@.len() && rules.leaves_through(
                #[trigger] interfaces@[i],
                packet_info.from_interface,
            ) ==> HEADER_LEN + packet_info.size_received <= GRAM_BUFFER_SIZE,
    ensures
        views(r@) == rules.transmissions(old(packet_buffer)@, interfaces@, *packet_info),
        final(packet_buffer)@ == rules.buffer_after(
            old(packet_buffer)@,
            interfaces@,
            *packet_info,
        ),
{
    let ghost start = packet_buffer@;
    let mut sent: Vec<Transmission> = Vec::new();
    assert(views(sent@) =~= rules.transmissions(start, interfaces@.take(0), *packet_info));
    for i in 0..interfaces.len()
        invariant
            forall|i: int|
                0 <= i < interfaces@.len() && rules.leaves_through(
                    #[trigger] interfaces@[i],
                    packet_info.from_interface,
                ) ==> HEADER_LEN + packet_info.size_received <= GRAM_BUFFER_SIZE,
            start.len() == GRAM_BUFFER_SIZE,
            views(sent@) == rules.transmissions(start, interfaces@.take(i as int), *packet_info),
            packet_buffer@ == rules.buffer_after(start, interfaces@.take(i as int), *packet_info),
    {
        let interface = interfaces[i];
        let ghost seen = interfaces@.take(i as int);
        assert(interfaces@.take(i + 1).drop_last() =~= seen);
        if leaves_through(rules, &interface, &packet_info.from_interface) {
            let from = source_address(
                rules.from_spoof_mode,
                &interface,
                rules.port,
                packet_info.originally_from,
            );
            let to = SocketAddress {
                ip: target_address(
                    rules.dest_spoof_mode,
                    &interface,
                    &packet_info.from_interface,
                    packet_info.originally_to_address,
                ),
                port: rules.port,
            };
            let header = Header {
                ttl: rules.ttl,
                from,
                to,
                len: packet_info.size_received,
                order: rules.order,
            };
            proof {
                lemma_frame_after(rules, start, seen, *packet_info, header);
            }
            write_header(packet_buffer, header);
            let end: usize = HEADER_LEN as usize + packet_info.size_received;
            let bytes = vstd::slice::slice_to_vec(
                vstd::slice::slice_subrange(packet_buffer.as_slice(), 0, end),
            );
            let ghost before = sent@;
            sent.push(Transmission { interface: i, from, to, frame: bytes });
            proof {
                assert(bytes@ =~= frame(start, header));
                assert(views(sent@) =~= views(before).push(sent@.last()@));
            }
        }
    }
    assert(interfaces@.take(interfaces@.len() as int) =~= interfaces@);
    sent
}

/// A transmission in specifications is what will be sent.
pub proof fn law_transmission_contents(transmissions: Seq<Transmission>, k: int)
    requires
        0 <= k < transmissions.len(),
    ensures
        views(transmissions).len() == transmissions.len(),
        ({
            let (seen, sent) = (views(transmissions)[k], transmissions[k]);
            &&& seen.interface == sent.interface
            &&& seen.from == sent.from
            &&& seen.to == sent.to
            &&& seen.frame == sent.frame@
        }),
{
}

} // verus!
