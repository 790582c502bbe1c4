//! What holds of the relay as a whole.

use crate::addr::{be_value, in_multicast_block, limited_broadcast, Ipv4Address, SocketAddress};
use crate::forward::{lemma_frame_after, ForwardRules, TransmissionView};
use crate::interface::MachineIterface;
use crate::mark::{mark_of, MAX_ID, MIN_ID};
use crate::packet::{
    frame, fresh_buffer, law_header_bytes, with_header, ByteOrder, Header, GRAM_BUFFER_SIZE,
    HEADER_LEN, UDPHEADER_LEN,
};
use crate::receive::{
    law_known_datagram, law_zero_behind_payload, told_interface, told_ttl, ttl_byte, with_index,
    ControlMessage, Dropped, Received, ReceivedPacketInfo,
};
use crate::relay::{buffer_relayed, relayed};
use crate::spoof::{
    source_mode_of, target_mode_of, InvalidSourceIp, SpoofDestAddrMode, SpoofFromAddrMode,
};
use vstd::prelude::*;

verus! {

/// The address at `at` of a packet.
pub open spec fn ip_at(packet: Seq<u8>, at: int) -> Ipv4Address {
    Ipv4Address { a: packet[at], b: packet[at + 1], c: packet[at + 2], d: packet[at + 3] }
}

/// The time to live of a packet.
pub open spec fn packet_ttl(packet: Seq<u8>) -> u8 {
    packet[8]
}

/// Who a packet comes from.
pub open spec fn packet_source(packet: Seq<u8>) -> SocketAddress {
    SocketAddress { ip: ip_at(packet, 12), port: be_value(packet[20], packet[21]) as u16 }
}

/// Where a packet goes.
pub open spec fn packet_target(packet: Seq<u8>) -> SocketAddress {
    SocketAddress { ip: ip_at(packet, 16), port: be_value(packet[22], packet[23]) as u16 }
}

/// What a packet carries.
pub open spec fn packet_payload(packet: Seq<u8>) -> Seq<u8> {
    packet.skip(HEADER_LEN as int)
}

/// The fields that the relay never writes are those of a version 4 header of
/// twenty bytes for UDP, unfragmented, with both checksums left out.
pub open spec fn fixed_fields_ready(buffer: Seq<u8>) -> bool {
    &&& buffer[0] == 0x45
    &&& buffer[1] == 0
    &&& buffer[4] == 0x12
    &&& buffer[5] == 0x34
    &&& buffer[6] == 0
    &&& buffer[7] == 0
    &&& buffer[9] == 17
    &&& buffer[10] == 0
    &&& buffer[11] == 0
    &&& buffer[26] == 0
    &&& buffer[27] == 0
}

/// The payload that the buffer holds for a datagram.
pub open spec fn buffered_payload(buffer: Seq<u8>, len: int) -> Seq<u8> {
    buffer.subrange(HEADER_LEN as int, HEADER_LEN + len)
}

/// Everything that is put into a packet can be read from it: the addresses and
/// ports, the mark, both lengths, and the payload.
pub proof fn law_packet_read_back(buffer: Seq<u8>, header: Header)
    requires
        buffer.len() == GRAM_BUFFER_SIZE,
        HEADER_LEN + header.len <= GRAM_BUFFER_SIZE,
    ensures
        frame(buffer, header).len() == HEADER_LEN + header.len,
        packet_ttl(frame(buffer, header)) == header.ttl,
        packet_source(frame(buffer, header)) == header.from,
        packet_target(frame(buffer, header)) == header.to,
        packet_payload(frame(buffer, header)) == buffered_payload(buffer, header.len as int),
        be_value(frame(buffer, header)[24], frame(buffer, header)[25]) == UDPHEADER_LEN
            + header.len,
        header.order == ByteOrder::Big ==> be_value(
            frame(buffer, header)[2],
            frame(buffer, header)[3],
        ) == HEADER_LEN + header.len,
        header.order == ByteOrder::Little ==> be_value(
            frame(buffer, header)[3],
            frame(buffer, header)[2],
        ) == HEADER_LEN + header.len,
{
    let packet = frame(buffer, header);
    assert(packet_payload(packet) =~= buffered_payload(buffer, header.len as int));
}

/// A fresh buffer has the fixed fields ready.
pub proof fn law_fresh_buffer_ready()
    ensures
        fresh_buffer().len() == GRAM_BUFFER_SIZE,
        fixed_fields_ready(fresh_buffer()),
{
}

/// Writing a payload behind the headers leaves the fixed fields ready.
pub proof fn law_fixed_fields_survive_payload(buffer: Seq<u8>, filled: Seq<u8>)
    requires
        fixed_fields_ready(buffer),
        forall|i: int| 0 <= i < HEADER_LEN ==> filled[i] == buffer[i],
    ensures
        fixed_fields_ready(filled),
{
}

/// Sending leaves the fixed fields ready.
proof fn lemma_fixed_fields_survive_sending(
    rules: ForwardRules,
    buffer: Seq<u8>,
    interfaces: Seq<MachineIterface>,
    info: ReceivedPacketInfo,
)
    requires
        buffer.len() == GRAM_BUFFER_SIZE,
        fixed_fields_ready(buffer),
    ensures
        rules.buffer_after(buffer, interfaces, info).len() == GRAM_BUFFER_SIZE,
        fixed_fields_ready(rules.buffer_after(buffer, interfaces, info)),
    decreases interfaces.len(),
{
    if interfaces.len() > 0 {
        lemma_fixed_fields_survive_sending(rules, buffer, interfaces.drop_last(), info);
    }
}

/// A turn of the relay leaves the fixed fields ready for the next one, and
/// every packet that is sent has them.
pub proof fn law_fixed_fields_survive_a_turn(
    received: Received,
    interfaces: Seq<MachineIterface>,
    rules: ForwardRules,
    buffer: Seq<u8>,
)
    requires
        buffer.len() == GRAM_BUFFER_SIZE,
        fixed_fields_ready(buffer),
        received.fits(),
    ensures
        buffer_relayed(received, interfaces, rules, buffer).len() == GRAM_BUFFER_SIZE,
        fixed_fields_ready(buffer_relayed(received, interfaces, rules, buffer)),
        relayed(received, interfaces, rules, buffer) matches Ok(sent) ==> forall|k: int|
            0 <= k < sent.len() ==> fixed_fields_ready((#[trigger] sent[k]).frame),
{
    let ended = received.ended(buffer);
    if let Ok(info) = received.outcome(interfaces, rules.ttl) {
        lemma_fixed_fields_survive_sending(rules, ended, interfaces, info);
        law_transmissions_sound(rules, ended, interfaces, info);
    }
}

/// Each packet goes out through an interface that it may leave through, with
/// the headers for that interface, in the order of the interfaces.
pub proof fn law_transmissions_sound(
    rules: ForwardRules,
    buffer: Seq<u8>,
    interfaces: Seq<MachineIterface>,
    info: ReceivedPacketInfo,
)
    ensures
        forall|k: int|
            0 <= k < rules.transmissions(buffer, interfaces, info).len() ==> {
                let sent = #[trigger] rules.transmissions(buffer, interfaces, info)[k];
                &&& 0 <= sent.interface < interfaces.len()
                &&& rules.leaves_through(interfaces[sent.interface], info.from_interface)
                &&& sent.from == rules.header_for(interfaces[sent.interface], info).from
                &&& sent.to == rules.header_for(interfaces[sent.interface], info).to
                &&& sent.frame == frame(
                    buffer,
                    rules.header_for(interfaces[sent.interface], info),
                )
            },
        forall|j: int, k: int|
            0 <= j < k < rules.transmissions(buffer, interfaces, info).len()
                ==> (#[trigger] rules.transmissions(buffer, interfaces, info)[j]).interface < (
            #[trigger] rules.transmissions(buffer, interfaces, info)[k]).interface,
    decreases interfaces.len(),
{
    if interfaces.len() > 0 {
        let front = interfaces.drop_last();
        law_transmissions_sound(rules, buffer, front, info);
        let before = rules.transmissions(buffer, front, info);
        let all = rules.transmissions(buffer, interfaces, info);
        assert forall|k: int| 0 <= k < all.len() implies {
            let sent = #[trigger] all[k];
            &&& 0 <= sent.interface < interfaces.len()
            &&& rules.leaves_through(interfaces[sent.interface], info.from_interface)
            &&& sent.from == rules.header_for(interfaces[sent.interface], info).from
            &&& sent.to == rules.header_for(interfaces[sent.interface], info).to
            &&& sent.frame == frame(buffer, rules.header_for(interfaces[sent.interface], info))
        } by {
            if k < before.len() {
                assert(all[k] == before[k]);
                assert(front[before[k].interface] == interfaces[before[k].interface]);
            }
        }
        assert forall|j: int, k: int| 0 <= j < k < all.len() implies (#[trigger] all[j]).interface
            < (#[trigger] all[k]).interface by {
            assert(all[j] == before[j]);
            if k < before.len() {
                assert(all[k] == before[k]);
            }
        }
    }
}

/// An interface that the packet may leave through gets one.
pub proof fn law_transmissions_complete(
    rules: ForwardRules,
    buffer: Seq<u8>,
    interfaces: Seq<MachineIterface>,
    info: ReceivedPacketInfo,
    i: int,
)
    requires
        0 <= i < interfaces.len(),
        rules.leaves_through(interfaces[i], info.from_interface),
    ensures
        exists|k: int|
            0 <= k < rules.transmissions(buffer, interfaces, info).len() && (
            #[trigger] rules.transmissions(buffer, interfaces, info)[k]).interface == i,
    decreases interfaces.len(),
{
    let front = interfaces.drop_last();
    let before = rules.transmissions(buffer, front, info);
    let all = rules.transmissions(buffer, interfaces, info);
    if i == interfaces.len() - 1 {
        assert(all[before.len() as int].interface == i);
    } else {
        assert(front[i] == interfaces[i]);
        law_transmissions_complete(rules, buffer, front, info, i);
        let k = choose|k: int| 0 <= k < before.len() && (#[trigger] before[k]).interface == i;
        assert(all[k] == before[k]);
    }
}

/// A packet goes out through all interfaces but the one that it came from. It
/// goes back out through that one exactly if it is redirected to a single host.
pub proof fn law_to_all_but_the_origin(
    rules: ForwardRules,
    buffer: Seq<u8>,
    interfaces: Seq<MachineIterface>,
    info: ReceivedPacketInfo,
    i: int,
)
    requires
        0 <= i < interfaces.len(),
    ensures
        interfaces[i] != info.from_interface ==> exists|k: int|
            0 <= k < rules.transmissions(buffer, interfaces, info).len() && (
            #[trigger] rules.transmissions(buffer, interfaces, info)[k]).interface == i,
        interfaces[i] == info.from_interface ==> (rules.redirects_to_one_host() <==> exists|k: int|
            0 <= k < rules.transmissions(buffer, interfaces, info).len() && (
            #[trigger] rules.transmissions(buffer, interfaces, info)[k]).interface == i),
{
    law_transmissions_sound(rules, buffer, interfaces, info);
    if rules.leaves_through(interfaces[i], info.from_interface) {
        law_transmissions_complete(rules, buffer, interfaces, info, i);
    }
}

/// A packet that goes back out through the interface that it came from goes to
/// the single host that it is redirected to.
pub proof fn law_back_only_to_one_host(
    rules: ForwardRules,
    buffer: Seq<u8>,
    interfaces: Seq<MachineIterface>,
    info: ReceivedPacketInfo,
    k: int,
)
    requires
        0 <= k < rules.transmissions(buffer, interfaces, info).len(),
        interfaces[rules.transmissions(buffer, interfaces, info)[k].interface]
            == info.from_interface,
    ensures
        rules.dest_spoof_mode matches Some(SpoofDestAddrMode::Other(target)) && target
            != limited_broadcast() && !in_multicast_block(target)
            && rules.transmissions(buffer, interfaces, info)[k].to.ip == target,
{
    law_transmissions_sound(rules, buffer, interfaces, info);
}

/// The packets for a datagram carry its payload unchanged, go to the relayed
/// port, and bear the mark.
pub proof fn law_payload_and_port_kept(
    received: Received,
    interfaces: Seq<MachineIterface>,
    rules: ForwardRules,
    buffer: Seq<u8>,
    sent: Seq<TransmissionView>,
    k: int,
)
    requires
        buffer.len() == GRAM_BUFFER_SIZE,
        received.fits(),
        relayed(received, interfaces, rules, buffer) == Ok::<Seq<TransmissionView>, Dropped>(sent),
        0 <= k < sent.len(),
    ensures
        sent[k].frame.len() == HEADER_LEN + received.len,
        packet_payload(sent[k].frame) == buffered_payload(buffer, received.len as int),
        packet_target(sent[k].frame).port == rules.port,
        packet_ttl(sent[k].frame) == rules.ttl,
{
    let ended = received.ended(buffer);
    let info = received.outcome(interfaces, rules.ttl)->Ok_0;
    law_transmissions_sound(rules, ended, interfaces, info);
    law_packet_read_back(ended, rules.header_for(interfaces[sent[k].interface], info));
    assert(buffered_payload(ended, received.len as int) =~= buffered_payload(
        buffer,
        received.len as int,
    ));
}

/// Forwarding writes nothing behind the headers.
proof fn lemma_payload_survives_sending(
    rules: ForwardRules,
    buffer: Seq<u8>,
    interfaces: Seq<MachineIterface>,
    info: ReceivedPacketInfo,
)
    ensures
        rules.buffer_after(buffer, interfaces, info).len() == buffer.len(),
        forall|i: int|
            HEADER_LEN <= i < buffer.len() ==> rules.buffer_after(buffer, interfaces, info)[i]
                == buffer[i],
    decreases interfaces.len(),
{
    if interfaces.len() > 0 {
        lemma_payload_survives_sending(rules, buffer, interfaces.drop_last(), info);
    }
}

/// A buffer that differs only in what the headers replace gives the same
/// packets.
proof fn lemma_same_transmissions(
    rules: ForwardRules,
    first: Seq<u8>,
    second: Seq<u8>,
    interfaces: Seq<MachineIterface>,
    info: ReceivedPacketInfo,
)
    requires
        forall|header: Header| #[trigger]
            with_header(first, header) == with_header(second, header),
    ensures
        rules.transmissions(first, interfaces, info) == rules.transmissions(
            second,
            interfaces,
            info,
        ),
    decreases interfaces.len(),
{
    if interfaces.len() > 0 {
        lemma_same_transmissions(rules, first, second, interfaces.drop_last(), info);
        let header = rules.header_for(interfaces.last(), info);
        assert(with_header(first, header) == with_header(second, header));
    }
}

/// Forwarding a datagram twice gives the same packets and the same buffer as
/// forwarding it once.
pub proof fn law_forwarding_again(
    rules: ForwardRules,
    buffer: Seq<u8>,
    interfaces: Seq<MachineIterface>,
    info: ReceivedPacketInfo,
)
    ensures
        rules.transmissions(
            rules.buffer_after(buffer, interfaces, info),
            interfaces,
            info,
        ) == rules.transmissions(buffer, interfaces, info),
        rules.buffer_after(
            rules.buffer_after(buffer, interfaces, info),
            interfaces,
            info,
        ) == rules.buffer_after(buffer, interfaces, info),
{
    let after = rules.buffer_after(buffer, interfaces, info);
    assert forall|header: Header| #[trigger]
        with_header(after, header) == with_header(buffer, header) by {
        lemma_frame_after(rules, buffer, interfaces, info, header);
    }
    lemma_same_transmissions(rules, after, buffer, interfaces, info);
    lemma_same_buffer(rules, after, buffer, interfaces, info);
}

/// Of two buffers that differ only in what the headers replace, forwarding makes
/// the same, unless nothing is sent and both stay as they are.
proof fn lemma_same_buffer(
    rules: ForwardRules,
    first: Seq<u8>,
    second: Seq<u8>,
    interfaces: Seq<MachineIterface>,
    info: ReceivedPacketInfo,
)
    requires
        forall|header: Header| #[trigger]
            with_header(first, header) == with_header(second, header),
    ensures
        rules.buffer_after(first, interfaces, info) == rules.buffer_after(second, interfaces, info)
            || (rules.buffer_after(first, interfaces, info) == first && rules.buffer_after(
            second,
            interfaces,
            info,
        ) == second),
    decreases interfaces.len(),
{
    if interfaces.len() > 0 {
        lemma_same_buffer(rules, first, second, interfaces.drop_last(), info);
        let header = rules.header_for(interfaces.last(), info);
        assert(with_header(first, header) == with_header(second, header));
    }
}

/// Relaying a datagram again, while its payload still stands in the buffer,
/// gives the same result and leaves the buffer as it is.
pub proof fn law_relaying_again(
    received: Received,
    interfaces: Seq<MachineIterface>,
    rules: ForwardRules,
    buffer: Seq<u8>,
)
    requires
        buffer.len() == GRAM_BUFFER_SIZE,
    ensures
        relayed(
            received,
            interfaces,
            rules,
            buffer_relayed(received, interfaces, rules, buffer),
        ) == relayed(received, interfaces, rules, buffer),
        buffer_relayed(
            received,
            interfaces,
            rules,
            buffer_relayed(received, interfaces, rules, buffer),
        ) == buffer_relayed(received, interfaces, rules, buffer),
{
    let ended = received.ended(buffer);
    let after = buffer_relayed(received, interfaces, rules, buffer);
    if let Ok(info) = received.outcome(interfaces, rules.ttl) {
        lemma_payload_survives_sending(rules, ended, interfaces, info);
        law_forwarding_again(rules, ended, interfaces, info);
    }
    if received.is_complete() && received.terminator() < GRAM_BUFFER_SIZE {
        assert(after[received.terminator()] == ended[received.terminator()]);
    }
    assert(received.ended(after) =~= after);
}

/// Without a forged source, a packet comes from the original sender: the bytes
/// of its address and of its port are those that were received.
pub proof fn law_sender_kept(
    received: Received,
    interfaces: Seq<MachineIterface>,
    rules: ForwardRules,
    buffer: Seq<u8>,
    sent: Seq<TransmissionView>,
    k: int,
)
    requires
        buffer.len() == GRAM_BUFFER_SIZE,
        received.fits(),
        rules.from_spoof_mode is None,
        relayed(received, interfaces, rules, buffer) == Ok::<Seq<TransmissionView>, Dropped>(sent),
        0 <= k < sent.len(),
    ensures
        packet_source(sent[k].frame) == received.sender(),
        sent[k].frame.subrange(12, 16) == received.sender_addr@,
        sent[k].frame.subrange(20, 22) == received.sender_port@,
{
    let ended = received.ended(buffer);
    let info = received.outcome(interfaces, rules.ttl)->Ok_0;
    law_transmissions_sound(rules, ended, interfaces, info);
    law_packet_read_back(ended, rules.header_for(interfaces[sent[k].interface], info));
    assert(sent[k].frame.subrange(12, 16) =~= received.sender_addr@);
    assert(sent[k].frame.subrange(20, 22) =~= received.sender_port@);
}

/// What a source address on the command line does: 1.1.1.1 stands for the
/// address of the outgoing interface with the relayed port, 1.1.1.2 for that
/// address with the port of the sender, and any other for itself with the port
/// of the sender.
pub proof fn law_forged_source(
    source_ip: Ipv4Address,
    rules: ForwardRules,
    buffer: Seq<u8>,
    interfaces: Seq<MachineIterface>,
    info: ReceivedPacketInfo,
    k: int,
)
    requires
        buffer.len() == GRAM_BUFFER_SIZE,
        HEADER_LEN + info.size_received <= GRAM_BUFFER_SIZE,
        source_ip != limited_broadcast(),
        source_mode_of(Some(source_ip)) == Ok::<
            Option<SpoofFromAddrMode>,
            InvalidSourceIp,
        >(rules.from_spoof_mode),
        0 <= k < rules.transmissions(buffer, interfaces, info).len(),
    ensures
        ({
            let sent = rules.transmissions(buffer, interfaces, info)[k];
            let source = packet_source(sent.frame);
            let own = interfaces[sent.interface].interface_addr;
            if source_ip@ == seq![1u8, 1, 1, 1] {
                source == (SocketAddress { ip: own, port: rules.port })
            } else if source_ip@ == seq![1u8, 1, 1, 2] {
                source == (SocketAddress { ip: own, port: info.originally_from.port })
            } else {
                source == (SocketAddress { ip: source_ip, port: info.originally_from.port })
            }
        }),
{
    law_transmissions_sound(rules, buffer, interfaces, info);
    let sent = rules.transmissions(buffer, interfaces, info)[k];
    law_packet_read_back(buffer, rules.header_for(interfaces[sent.interface], info));
}

/// What a target address on the command line does: 255.255.255.255 stands for
/// the broadcast address of the outgoing interface, and any other for itself.
/// Without one, a broadcast on the network that the packet came from becomes a
/// broadcast on the network that it enters, and any other destination is kept.
pub proof fn law_destination(
    target_ip: Option<Ipv4Address>,
    rules: ForwardRules,
    buffer: Seq<u8>,
    interfaces: Seq<MachineIterface>,
    info: ReceivedPacketInfo,
    k: int,
)
    requires
        buffer.len() == GRAM_BUFFER_SIZE,
        HEADER_LEN + info.size_received <= GRAM_BUFFER_SIZE,
        rules.dest_spoof_mode == target_mode_of(target_ip),
        0 <= k < rules.transmissions(buffer, interfaces, info).len(),
    ensures
        ({
            let sent = rules.transmissions(buffer, interfaces, info)[k];
            let everyone = interfaces[sent.interface].destination_addr;
            let originally_to = info.originally_to_address;
            &&& packet_target(sent.frame) == sent.to
            &&& sent.to.port == rules.port
            &&& sent.to.ip == match target_ip {
                Some(target) => if target == limited_broadcast() {
                    everyone
                } else {
                    target
                },
                None => if originally_to == limited_broadcast() || originally_to
                    == info.from_interface.destination_addr {
                    everyone
                } else {
                    originally_to
                },
            }
        }),
{
    law_transmissions_sound(rules, buffer, interfaces, info);
    let sent = rules.transmissions(buffer, interfaces, info)[k];
    law_packet_read_back(buffer, rules.header_for(interfaces[sent.interface], info));
}

/// A relay ignores its own packets, on whichever port and through whichever
/// interface they come back.
pub proof fn law_own_packets_ignored(
    rules: ForwardRules,
    buffer: Seq<u8>,
    interfaces: Seq<MachineIterface>,
    info: ReceivedPacketInfo,
    k: int,
    back: Received,
)
    requires
        buffer.len() == GRAM_BUFFER_SIZE,
        HEADER_LEN + info.size_received <= GRAM_BUFFER_SIZE,
        0 <= k < rules.transmissions(buffer, interfaces, info).len(),
        told_ttl(back.control@) == Some(
            packet_ttl(rules.transmissions(buffer, interfaces, info)[k].frame) as i32,
        ),
    ensures
        back.outcome(interfaces, rules.ttl) is Err,
        back.is_complete() ==> back.outcome(interfaces, rules.ttl) == Err::<
            ReceivedPacketInfo,
            Dropped,
        >(Dropped::Echo),
{
    law_transmissions_sound(rules, buffer, interfaces, info);
    let sent = rules.transmissions(buffer, interfaces, info)[k];
    law_packet_read_back(buffer, rules.header_for(interfaces[sent.interface], info));
}

/// Relays with different ids have different marks, and a relay does not take
/// the packets of another for its own.
pub proof fn law_ids_tell_relays_apart(
    id: u8,
    other_id: u8,
    rules: ForwardRules,
    buffer: Seq<u8>,
    interfaces: Seq<MachineIterface>,
    info: ReceivedPacketInfo,
    k: int,
    other_interfaces: Seq<MachineIterface>,
    arriving: Received,
)
    requires
        MIN_ID <= id <= MAX_ID,
        MIN_ID <= other_id <= MAX_ID,
        id != other_id,
        rules.ttl == mark_of(id),
        buffer.len() == GRAM_BUFFER_SIZE,
        HEADER_LEN + info.size_received <= GRAM_BUFFER_SIZE,
        0 <= k < rules.transmissions(buffer, interfaces, info).len(),
        told_ttl(arriving.control@) == Some(
            packet_ttl(rules.transmissions(buffer, interfaces, info)[k].frame) as i32,
        ),
    ensures
        mark_of(id) != mark_of(other_id),
        arriving.outcome(other_interfaces, mark_of(other_id) as u8) != Err::<
            ReceivedPacketInfo,
            Dropped,
        >(Dropped::Echo),
{
    law_transmissions_sound(rules, buffer, interfaces, info);
    let sent = rules.transmissions(buffer, interfaces, info)[k];
    law_packet_read_back(buffer, rules.header_for(interfaces[sent.interface], info));
}

/// A datagram is relayed exactly if the kernel told all about it, it does not
/// bear the mark, and it came in through an interface that the relay serves.
pub proof fn law_what_is_relayed(received: Received, interfaces: Seq<MachineIterface>, ttl: u8)
    ensures
        received.outcome(interfaces, ttl) is Ok <==> {
            &&& received.is_complete()
            &&& ttl_byte(told_ttl(received.control@)->0) != ttl
            &&& exists|i: int|
                0 <= i < interfaces.len() && (#[trigger] interfaces[i]).ifindex
                    == told_interface(received.control@)->0
        },
{
    let ifindex = told_interface(received.control@)->0;
    lemma_with_index(interfaces, ifindex);
}

/// The interface with an index is found if there is one.
proof fn lemma_with_index(interfaces: Seq<MachineIterface>, ifindex: i32)
    ensures
        with_index(interfaces, ifindex) is Some <==> exists|i: int|
            0 <= i < interfaces.len() && (#[trigger] interfaces[i]).ifindex == ifindex,
        with_index(interfaces, ifindex) matches Some(found) ==> found.ifindex == ifindex
            && interfaces.contains(found),
    decreases interfaces.len(),
{
    if interfaces.len() > 0 {
        let rest = interfaces.drop_first();
        lemma_with_index(rest, ifindex);
        if interfaces.first().ifindex == ifindex {
            assert(interfaces[0].ifindex == ifindex);
        } else {
            if with_index(rest, ifindex) is Some {
                let found = with_index(rest, ifindex)->0;
                let i = choose|i: int| 0 <= i < rest.len() && rest[i] == found;
                assert(interfaces[i + 1] == found);
            }
            if exists|i: int|
                0 <= i < interfaces.len() && (#[trigger] interfaces[i]).ifindex == ifindex {
                let i = choose|i: int|
                    0 <= i < interfaces.len() && (#[trigger] interfaces[i]).ifindex == ifindex;
                assert(rest[i - 1].ifindex == ifindex);
            }
        }
    }
}

/// Who gets a packet. Every interface but the one that the datagram came in on
/// gets exactly one. The one that it came in on gets one exactly if packets are
/// redirected to an address that is neither 255.255.255.255 nor a multicast
/// address. The packets come in the order of the interfaces.
pub proof fn law_one_packet_each(
    rules: ForwardRules,
    buffer: Seq<u8>,
    interfaces: Seq<MachineIterface>,
    info: ReceivedPacketInfo,
    i: int,
)
    requires
        0 <= i < interfaces.len(),
    ensures
        ({
            let all = rules.transmissions(buffer, interfaces, info);
            let to_one_host = match rules.dest_spoof_mode {
                Some(SpoofDestAddrMode::Other(ip)) => !(ip.a == 255 && ip.b == 255 && ip.c == 255
                    && ip.d == 255) && !(224 <= ip.a <= 239),
                _ => false,
            };
            let own = info.from_interface;
            let is_origin = interfaces[i].ifindex == own.ifindex && interfaces[i].interface_addr
                == own.interface_addr && interfaces[i].destination_addr == own.destination_addr;
            &&& rules.leaves_through(interfaces[i], own) <==> !is_origin || to_one_host
            &&& (!is_origin || to_one_host) <==> exists|k: int|
                0 <= k < all.len() && (#[trigger] all[k]).interface == i
        }),
        ({
            let all = rules.transmissions(buffer, interfaces, info);
            forall|j: int, k: int|
                0 <= j < k < all.len() ==> (#[trigger] all[j]).interface < (
                #[trigger] all[k]).interface
        }),
        ({
            let all = rules.transmissions(buffer, interfaces, info);
            forall|k: int|
                0 <= k < all.len() ==> 0 <= (#[trigger] all[k]).interface < interfaces.len()
        }),
{
    law_transmissions_sound(rules, buffer, interfaces, info);
    if rules.leaves_through(interfaces[i], info.from_interface) {
        law_transmissions_complete(rules, buffer, interfaces, info, i);
    }
}

/// What a packet holds, byte by byte: the total length in the order that the
/// kernel takes it, the mark, the source and the target that the rules ask for,
/// the relayed port, the length of the datagram, and its payload.
pub proof fn law_packet_bytes(
    rules: ForwardRules,
    buffer: Seq<u8>,
    interfaces: Seq<MachineIterface>,
    info: ReceivedPacketInfo,
    k: int,
)
    requires
        buffer.len() == 4096,
        28 + info.size_received <= 4096,
        0 <= k < rules.transmissions(buffer, interfaces, info).len(),
    ensures
        ({
            let sent = rules.transmissions(buffer, interfaces, info)[k];
            let frame = sent.frame;
            let out = interfaces[sent.interface];
            let to = info.originally_to_address;
            let (source_ip, source_port) = match rules.from_spoof_mode {
                None => (info.originally_from.ip, info.originally_from.port),
                Some(SpoofFromAddrMode::BroadcastPort) => (out.interface_addr, rules.port),
                Some(SpoofFromAddrMode::SourcePort) => (
                    out.interface_addr,
                    info.originally_from.port,
                ),
                Some(SpoofFromAddrMode::Other(ip)) => (ip, info.originally_from.port),
            };
            let target_ip = match rules.dest_spoof_mode {
                Some(SpoofDestAddrMode::NewInterfaceBroadcast) => out.destination_addr,
                Some(SpoofDestAddrMode::Other(ip)) => ip,
                None => if to == info.from_interface.destination_addr || (to.a == 255 && to.b
                    == 255 && to.c == 255 && to.d == 255) {
                    out.destination_addr
                } else {
                    to
                },
            };
            {
                &&& frame.len() == 28 + info.size_received
                &&& rules.order is Big ==> frame[2] * 256 + frame[3] == 28 + info.size_received
                &&& rules.order is Little ==> frame[3] * 256 + frame[2] == 28 + info.size_received
                &&& frame[8] == rules.ttl
                &&& frame[12] == source_ip.a && frame[13] == source_ip.b && frame[14]
                    == source_ip.c && frame[15] == source_ip.d
                &&& frame[16] == target_ip.a && frame[17] == target_ip.b && frame[18]
                    == target_ip.c && frame[19] == target_ip.d
                &&& frame[20] * 256 + frame[21] == source_port
                &&& frame[22] * 256 + frame[23] == rules.port
                &&& frame[24] * 256 + frame[25] == 8 + info.size_received
                &&& forall|j: int|
                    0 <= j < 2 || 4 <= j < 8 || 9 <= j < 12 || 26 <= j < 28 + info.size_received
                        ==> #[trigger] frame[j] == buffer[j]
                &&& sent.from.ip == source_ip && sent.from.port == source_port
                &&& sent.to.ip == target_ip && sent.to.port == rules.port
            }
        }),
{
    law_transmissions_sound(rules, buffer, interfaces, info);
    let sent = rules.transmissions(buffer, interfaces, info)[k];
    let header = rules.header_for(interfaces[sent.interface], info);
    law_header_bytes(buffer, header, 0);
    assert forall|j: int|
        0 <= j < 2 || 4 <= j < 8 || 9 <= j < 12 || 26 <= j < 28
            + info.size_received implies #[trigger] sent.frame[j] == buffer[j] by {
        law_header_bytes(buffer, header, j);
    }
}

/// What forwarding leaves in the buffer: nothing behind the headers changes, and
/// the headers are those of the last packet, or what they were if there is none.
pub proof fn law_buffer_after_forwarding(
    rules: ForwardRules,
    buffer: Seq<u8>,
    interfaces: Seq<MachineIterface>,
    info: ReceivedPacketInfo,
    i: int,
)
    requires
        buffer.len() == 4096,
        28 + info.size_received <= 4096,
        0 <= i < 4096,
    ensures
        rules.buffer_after(buffer, interfaces, info).len() == 4096,
        ({
            let all = rules.transmissions(buffer, interfaces, info);
            rules.buffer_after(buffer, interfaces, info)[i] == (if i < 28 && all.len() > 0 {
                all.last().frame[i]
            } else {
                buffer[i]
            })
        }),
    decreases interfaces.len(),
{
    if interfaces.len() > 0 {
        law_buffer_after_forwarding(rules, buffer, interfaces.drop_last(), info, i);
        law_header_bytes(buffer, rules.header_for(interfaces.last(), info), i);
    }
}

/// A datagram about which everything is known, that does not bear the mark and
/// that came in on a served interface is relayed: every other interface gets
/// exactly one packet, and the one that it came in on gets one exactly if packets
/// are redirected to a single host. The messages at `t`, `i` and `d` are the last
/// that tell its time to live, its interface and its destination, and `p` is the
/// first interface with that number.
pub proof fn law_datagram_reaches_everyone(
    received: Received,
    interfaces: Seq<MachineIterface>,
    rules: ForwardRules,
    buffer: Seq<u8>,
    t: int,
    i: int,
    d: int,
    p: int,
    q: int,
)
    requires
        received.len > 0,
        received.control_len != 0,
        0 <= t < received.control@.len(),
        received.control@[t] is Ttl,
        forall|j: int|
            t < j < received.control@.len() ==> !(#[trigger] received.control@[j] is Ttl),
        0 <= i < received.control@.len(),
        received.control@[i] is PacketInfo || received.control@[i] is Interface,
        forall|j: int|
            i < j < received.control@.len() ==> !(#[trigger] received.control@[j] is PacketInfo)
                && !(received.control@[j] is Interface),
        0 <= d < received.control@.len(),
        received.control@[d] is PacketInfo || received.control@[d] is Destination,
        forall|j: int|
            d < j < received.control@.len() ==> !(#[trigger] received.control@[j] is PacketInfo)
                && !(received.control@[j] is Destination),
        0 <= p < interfaces.len(),
        ({
            let ifindex = match received.control@[i] {
                ControlMessage::PacketInfo { ifindex, .. } => ifindex,
                _ => received.control@[i]->Interface_0,
            };
            &&& forall|j: int| 0 <= j < p ==> (#[trigger] interfaces[j]).ifindex != ifindex
            &&& interfaces[p].ifindex == ifindex
        }),
        received.control@[t]->Ttl_0 as int % 256 != rules.ttl,
        0 <= q < interfaces.len(),
    ensures
        relayed(received, interfaces, rules, buffer) is Ok,
        ({
            let all = relayed(received, interfaces, rules, buffer)->Ok_0;
            let to_one_host = match rules.dest_spoof_mode {
                Some(SpoofDestAddrMode::Other(ip)) => !(ip.a == 255 && ip.b == 255 && ip.c == 255
                    && ip.d == 255) && !(224 <= ip.a <= 239),
                _ => false,
            };
            let (own, out) = (interfaces[p], interfaces[q]);
            let is_origin = out.ifindex == own.ifindex && out.interface_addr == own.interface_addr
                && out.destination_addr == own.destination_addr;
            (!is_origin || to_one_host) <==> exists|k: int|
                0 <= k < all.len() && (#[trigger] all[k]).interface == q
        }),
        ({
            let all = relayed(received, interfaces, rules, buffer)->Ok_0;
            forall|j: int, k: int|
                0 <= j < k < all.len() ==> (#[trigger] all[j]).interface < (
                #[trigger] all[k]).interface
        }),
        ({
            let all = relayed(received, interfaces, rules, buffer)->Ok_0;
            forall|k: int|
                0 <= k < all.len() ==> 0 <= (#[trigger] all[k]).interface < interfaces.len()
        }),
{
    law_known_datagram(received, interfaces, rules.ttl, t, i, d, p);
    let info = received.outcome(interfaces, rules.ttl)->Ok_0;
    let ended = received.ended(buffer);
    law_one_packet_each(rules, ended, interfaces, info, q);
    let all = relayed(received, interfaces, rules, buffer)->Ok_0;
    assert(all == rules.transmissions(ended, interfaces, info));
    if rules.leaves_through(interfaces[q], interfaces[p]) {
        law_transmissions_complete(rules, ended, interfaces, info, q);
        let k = choose|k: int| 0 <= k < all.len() && (#[trigger] all[k]).interface == q;
        assert(all[k].interface == q);
    } else if exists|k: int| 0 <= k < all.len() && (#[trigger] all[k]).interface == q {
        let k = choose|k: int| 0 <= k < all.len() && (#[trigger] all[k]).interface == q;
        assert(rules.transmissions(ended, interfaces, info)[k].interface == q);
    }
}

/// What the packets for a datagram hold, byte by byte. The source is the sender
/// that the kernel told, or what the rules make of it; the target is the
/// destination that the kernel told, or what the rules make of it; the payload is
/// the one received. The parameters are those of
/// [`law_datagram_reaches_everyone`].
pub proof fn law_relayed_bytes(
    received: Received,
    interfaces: Seq<MachineIterface>,
    rules: ForwardRules,
    buffer: Seq<u8>,
    t: int,
    i: int,
    d: int,
    p: int,
    k: int,
)
    requires
        received.len > 0,
        received.control_len != 0,
        0 <= t < received.control@.len(),
        received.control@[t] is Ttl,
        forall|j: int|
            t < j < received.control@.len() ==> !(#[trigger] received.control@[j] is Ttl),
        0 <= i < received.control@.len(),
        received.control@[i] is PacketInfo || received.control@[i] is Interface,
        forall|j: int|
            i < j < received.control@.len() ==> !(#[trigger] received.control@[j] is PacketInfo)
                && !(received.control@[j] is Interface),
        0 <= d < received.control@.len(),
        received.control@[d] is PacketInfo || received.control@[d] is Destination,
        forall|j: int|
            d < j < received.control@.len() ==> !(#[trigger] received.control@[j] is PacketInfo)
                && !(received.control@[j] is Destination),
        0 <= p < interfaces.len(),
        ({
            let ifindex = match received.control@[i] {
                ControlMessage::PacketInfo { ifindex, .. } => ifindex,
                _ => received.control@[i]->Interface_0,
            };
            &&& forall|j: int| 0 <= j < p ==> (#[trigger] interfaces[j]).ifindex != ifindex
            &&& interfaces[p].ifindex == ifindex
        }),
        received.control@[t]->Ttl_0 as int % 256 != rules.ttl,
        buffer.len() == 4096,
        received.len <= 4068,
        relayed(received, interfaces, rules, buffer) is Ok,
        0 <= k < relayed(received, interfaces, rules, buffer)->Ok_0.len(),
    ensures
        ({
            let sent = relayed(received, interfaces, rules, buffer)->Ok_0[k];
            let frame = sent.frame;
            let out = interfaces[sent.interface];
            let to = match received.control@[d] {
                ControlMessage::PacketInfo { addr, .. } => addr,
                _ => received.control@[d]->Destination_0,
            };
            let sender = Ipv4Address {
                a: received.sender_addr@[0],
                b: received.sender_addr@[1],
                c: received.sender_addr@[2],
                d: received.sender_addr@[3],
            };
            let sender_port = received.sender_port@[0] * 256 + received.sender_port@[1];
            let (source_ip, source_port) = match rules.from_spoof_mode {
                None => (sender, sender_port),
                Some(SpoofFromAddrMode::BroadcastPort) => (
                    out.interface_addr,
                    rules.port as int,
                ),
                Some(SpoofFromAddrMode::SourcePort) => (out.interface_addr, sender_port),
                Some(SpoofFromAddrMode::Other(ip)) => (ip, sender_port),
            };
            let target_ip = match rules.dest_spoof_mode {
                Some(SpoofDestAddrMode::NewInterfaceBroadcast) => out.destination_addr,
                Some(SpoofDestAddrMode::Other(ip)) => ip,
                None => if to == interfaces[p].destination_addr || (to.a == 255 && to.b == 255
                    && to.c == 255 && to.d == 255) {
                    out.destination_addr
                } else {
                    to
                },
            };
            {
                &&& frame.len() == 28 + received.len
                &&& rules.order is Big ==> frame[2] * 256 + frame[3] == 28 + received.len
                &&& rules.order is Little ==> frame[3] * 256 + frame[2] == 28 + received.len
                &&& frame[8] == rules.ttl
                &&& frame[12] == source_ip.a && frame[13] == source_ip.b && frame[14]
                    == source_ip.c && frame[15] == source_ip.d
                &&& frame[16] == target_ip.a && frame[17] == target_ip.b && frame[18]
                    == target_ip.c && frame[19] == target_ip.d
                &&& frame[20] * 256 + frame[21] == source_port
                &&& frame[22] * 256 + frame[23] == rules.port
                &&& frame[24] * 256 + frame[25] == 8 + received.len
                &&& forall|j: int|
                    0 <= j < 2 || 4 <= j < 8 || 9 <= j < 12 || 26 <= j < 28 + received.len
                        ==> #[trigger] frame[j] == buffer[j]
                &&& sent.from.ip == source_ip && sent.from.port == source_port
                &&& sent.to.ip == target_ip && sent.to.port == rules.port
            }
        }),
{
    law_known_datagram(received, interfaces, rules.ttl, t, i, d, p);
    let info = received.outcome(interfaces, rules.ttl)->Ok_0;
    let ended = received.ended(buffer);
    law_packet_bytes(rules, ended, interfaces, info, k);
    assert(ended.len() == 4096);
    assert(forall|j: int| 0 <= j < 28 + received.len ==> #[trigger] ended[j] == buffer[j]);
}

/// A datagram is refused by the relay exactly if it is refused on receipt, and for
/// the same reason; then nothing is written but the zero byte behind its payload.
pub proof fn law_refused_datagram(
    received: Received,
    interfaces: Seq<MachineIterface>,
    rules: ForwardRules,
    buffer: Seq<u8>,
)
    ensures
        relayed(received, interfaces, rules, buffer) is Err <==> received.outcome(
            interfaces,
            rules.ttl,
        ) is Err,
        received.outcome(interfaces, rules.ttl) matches Err(dropped) ==> relayed(
            received,
            interfaces,
            rules,
            buffer,
        ) == Err::<Seq<TransmissionView>, Dropped>(dropped) && buffer_relayed(
            received,
            interfaces,
            rules,
            buffer,
        ) == received.ended(buffer),
{
}

/// What a turn of the relay leaves in the buffer: the payload, a zero byte behind
/// it, and the headers of the last packet.
pub proof fn law_buffer_after_a_turn(
    received: Received,
    interfaces: Seq<MachineIterface>,
    rules: ForwardRules,
    buffer: Seq<u8>,
    i: int,
)
    requires
        buffer.len() == 4096,
        received.is_complete() ==> received.len <= 4068,
        0 <= i < 4096,
    ensures
        buffer_relayed(received, interfaces, rules, buffer).len() == 4096,
        buffer_relayed(received, interfaces, rules, buffer)[i] == (match relayed(
            received,
            interfaces,
            rules,
            buffer,
        ) {
            Ok(all) => if i < 28 && all.len() > 0 {
                all.last().frame[i]
            } else if i == 56 + received.len {
                0u8
            } else {
                buffer[i]
            },
            Err(_) => if received.is_complete() && i == 56 + received.len {
                0u8
            } else {
                buffer[i]
            },
        }),
{
    law_zero_behind_payload(received, buffer, i);
    if let Ok(info) = received.outcome(interfaces, rules.ttl) {
        law_buffer_after_forwarding(rules, received.ended(buffer), interfaces, info, i);
    }
}

} // verus!
