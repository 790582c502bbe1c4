use udp_broadcast_relay::addr::{Ipv4Address, SocketAddress};
use udp_broadcast_relay::forward::{forward_packet, leaves_through, ForwardRules};
use udp_broadcast_relay::interface::MachineIterface;
use udp_broadcast_relay::mark::ttl_mark;
use udp_broadcast_relay::packet::{
    gram_buffer, total_length_order, write_header, ByteOrder, Header, GRAM_BUFFER_SIZE,
    HEADER_LEN, IPHEADER_LEN, UDPHEADER_LEN,
};
use udp_broadcast_relay::receive::{
    overruns_buffer, receive_broadcast, ControlMessage, Dropped, Received, ReceivedPacketInfo,
};
use udp_broadcast_relay::relay::relay_datagram;
use udp_broadcast_relay::setup::Platform;
use udp_broadcast_relay::spoof::{source_mode, target_mode};

fn ip(a: u8, b: u8, c: u8, d: u8) -> Ipv4Address {
    Ipv4Address::new(a, b, c, d)
}

const EVERYONE: Ipv4Address = Ipv4Address { a: 255, b: 255, c: 255, d: 255 };

fn interfaces() -> Vec<MachineIterface> {
    vec![
        MachineIterface {
            destination_addr: ip(192, 168, 10, 255),
            interface_addr: ip(192, 168, 10, 9),
            ifindex: 2,
        },
        MachineIterface {
            destination_addr: ip(192, 168, 30, 255),
            interface_addr: ip(192, 168, 30, 9),
            ifindex: 3,
        },
        MachineIterface {
            destination_addr: ip(10, 66, 2, 13),
            interface_addr: ip(10, 66, 2, 12),
            ifindex: 4,
        },
    ]
}

fn rules(source: Option<Ipv4Address>, target: Option<Ipv4Address>) -> ForwardRules {
    ForwardRules {
        from_spoof_mode: source_mode(source).unwrap(),
        dest_spoof_mode: target_mode(target),
        port: 1900,
        ttl: ttl_mark(1),
        order: ByteOrder::Big,
    }
}

/// A datagram of five bytes from 192.168.10.77, port 0xC001, on the first
/// interface.
fn received(to: Ipv4Address) -> Received {
    Received {
        len: 5,
        sender_addr: [192, 168, 10, 77],
        sender_port: [0xC0, 0x01],
        control_len: 64,
        control: vec![
            ControlMessage::Ttl(4),
            ControlMessage::PacketInfo { ifindex: 2, addr: to },
        ],
    }
}

fn filled_buffer() -> [u8; GRAM_BUFFER_SIZE] {
    let mut buffer = gram_buffer();
    buffer[28..33].copy_from_slice(b"hello");
    buffer
}

#[test]
fn fresh_buffer() {
    let buffer = gram_buffer();
    assert_eq!(buffer[..12], [0x45, 0, 0, 0x26, 0x12, 0x34, 0, 0, 0xFF, 0x11, 0, 0]);
    assert_eq!(buffer[12..24], [0; 12]);
    assert_eq!(buffer[24..28], [0, 0x12, 0, 0]);
    assert_eq!(&buffer[28..38], b"1234567890");
    assert!(buffer[38..].iter().all(|byte| *byte == 0));
    assert_eq!(IPHEADER_LEN + UDPHEADER_LEN, HEADER_LEN);
}

#[test]
fn headers_are_written() {
    let mut buffer = [0xAAu8; GRAM_BUFFER_SIZE];
    let header = Header {
        ttl: 65,
        from: SocketAddress { ip: ip(1, 2, 3, 4), port: 0x1234 },
        to: SocketAddress { ip: ip(5, 6, 7, 8), port: 0x5678 },
        len: 0x0102,
        order: ByteOrder::Big,
    };
    write_header(&mut buffer, header);
    let expected = [
        0xAA, 0xAA, 0x01, 0x1E, 0xAA, 0xAA, 0xAA, 0xAA, 65, 0xAA, 0xAA, 0xAA, 1, 2, 3, 4, 5, 6, 7, 8,
        0x12, 0x34, 0x56, 0x78, 0x01, 0x0A, 0xAA, 0xAA,
    ];
    assert_eq!(buffer[..28], expected);
    assert!(buffer[28..].iter().all(|byte| *byte == 0xAA));
    write_header(&mut buffer, Header { order: ByteOrder::Little, ..header });
    assert_eq!(buffer[2..4], [0x1E, 0x01]);
    assert_eq!(buffer[24..26], [0x01, 0x0A]);
}

#[test]
fn largest_payload_fits() {
    let mut buffer = gram_buffer();
    let address = SocketAddress { ip: ip(1, 2, 3, 4), port: 1 };
    let header =
        Header { ttl: 1, from: address, to: address, len: 4068, order: ByteOrder::Big };
    write_header(&mut buffer, header);
    assert_eq!(buffer[2..4], [0x10, 0x00]);
    assert_eq!(buffer[24..26], [0x0F, 0xEC]);
}

#[test]
fn order_of_the_total_length() {
    assert_eq!(total_length_order(Platform::MacOs, ByteOrder::Little), ByteOrder::Little);
    assert_eq!(total_length_order(Platform::MacOs, ByteOrder::Big), ByteOrder::Big);
    assert_eq!(total_length_order(Platform::Linux, ByteOrder::Little), ByteOrder::Big);
    assert_eq!(total_length_order(Platform::FreeBsd, ByteOrder::Little), ByteOrder::Big);
}

#[test]
fn interfaces_compare_by_addresses_and_index() {
    let first = interfaces()[0];
    assert!(first == interfaces()[0]);
    assert!(first != MachineIterface { ifindex: 9, ..first });
    assert!(first != MachineIterface { interface_addr: ip(1, 1, 1, 1), ..first });
    assert!(first != MachineIterface { destination_addr: ip(1, 1, 1, 1), ..first });
}

#[test]
fn datagram_is_taken() {
    let mut buffer = [0xAAu8; GRAM_BUFFER_SIZE];
    let info = receive_broadcast(&received(EVERYONE), &interfaces(), 65, &mut buffer).unwrap();
    assert_eq!(info.originally_from, SocketAddress { ip: ip(192, 168, 10, 77), port: 0xC001 });
    assert_eq!(info.originally_to_address, EVERYONE);
    assert_eq!(info.size_received, 5);
    assert!(info.from_interface == interfaces()[0]);
    assert_eq!(buffer[61], 0);
    assert!(buffer.iter().enumerate().all(|(i, byte)| (i == 61) == (*byte == 0)));
}

#[test]
fn datagram_is_dropped() {
    let drop_of = |received: Received| {
        let mut buffer = gram_buffer();
        receive_broadcast(&received, &interfaces(), 65, &mut buffer).unwrap_err()
    };
    let info = ControlMessage::PacketInfo { ifindex: 2, addr: EVERYONE };
    let with = |control: Vec<ControlMessage>| Received { control, ..received(EVERYONE) };
    assert_eq!(drop_of(Received { len: -1, ..received(EVERYONE) }), Dropped::ReceiveFailed);
    assert_eq!(drop_of(Received { len: 0, ..received(EVERYONE) }), Dropped::ReceiveFailed);
    assert_eq!(
        drop_of(Received { control_len: 0, ..received(EVERYONE) }),
        Dropped::NoControlMessages
    );
    assert_eq!(drop_of(with(vec![])), Dropped::NoTtl);
    assert_eq!(drop_of(with(vec![info, ControlMessage::Other])), Dropped::NoTtl);
    assert_eq!(drop_of(with(vec![ControlMessage::Ttl(1)])), Dropped::NoInterface);
    assert_eq!(
        drop_of(with(vec![ControlMessage::Ttl(1), ControlMessage::Interface(2)])),
        Dropped::NoDestination
    );
    assert_eq!(drop_of(with(vec![ControlMessage::Ttl(65), info])), Dropped::Echo);
    assert_eq!(drop_of(with(vec![ControlMessage::Ttl(256 + 65), info])), Dropped::Echo);
    assert_eq!(drop_of(with(vec![ControlMessage::Ttl(65 - 256), info])), Dropped::Echo);
    let foreign = ControlMessage::PacketInfo { ifindex: 99, addr: EVERYONE };
    assert_eq!(drop_of(with(vec![ControlMessage::Ttl(65), foreign])), Dropped::Echo);
    assert_eq!(drop_of(with(vec![ControlMessage::Ttl(1), foreign])), Dropped::UnmanagedInterface);
}

#[test]
fn last_control_message_counts() {
    let mut buffer = gram_buffer();
    let datagram = Received {
        control: vec![
            ControlMessage::Ttl(65),
            ControlMessage::Ttl(1),
            ControlMessage::PacketInfo { ifindex: 99, addr: ip(1, 1, 1, 1) },
            ControlMessage::Destination(ip(2, 2, 2, 2)),
            ControlMessage::Interface(3),
        ],
        ..received(EVERYONE)
    };
    let info = receive_broadcast(&datagram, &interfaces(), 65, &mut buffer).unwrap();
    assert_eq!(info.originally_to_address, ip(2, 2, 2, 2));
    assert_eq!(info.from_interface.ifindex, 3);
}

#[test]
fn room_for_the_payload() {
    let datagram = |len: isize| Received { len, ..received(EVERYONE) };
    assert!(!overruns_buffer(&datagram(4068)));
    assert!(overruns_buffer(&datagram(4069)));
    assert!(!overruns_buffer(&Received { control: vec![], ..datagram(4069) }));
    assert!(!overruns_buffer(&datagram(-1)));
}

#[test]
fn zero_byte_behind_the_payload() {
    let datagram = |len: isize| Received { len, ..received(EVERYONE) };
    let mut buffer = [1u8; GRAM_BUFFER_SIZE];
    assert!(receive_broadcast(&datagram(4039), &interfaces(), 65, &mut buffer).is_ok());
    assert!(buffer.iter().enumerate().all(|(i, byte)| (i == 4095) == (*byte == 0)));
    for len in [4040, 4067] {
        let mut buffer = [1u8; GRAM_BUFFER_SIZE];
        let info = receive_broadcast(&datagram(len), &interfaces(), 65, &mut buffer).unwrap();
        assert_eq!(info.size_received, len as usize);
        assert_eq!(buffer, [1u8; GRAM_BUFFER_SIZE]);
    }
}

#[test]
fn relaying_again_changes_nothing() {
    let mut buffer = filled_buffer();
    let rules = rules(None, None);
    let first = relay_datagram(&received(EVERYONE), &interfaces(), rules, &mut buffer).unwrap();
    let kept = buffer;
    let second = relay_datagram(&received(EVERYONE), &interfaces(), rules, &mut buffer).unwrap();
    assert_eq!(first.len(), 2);
    assert_eq!(format!("{first:?}"), format!("{second:?}"));
    assert_eq!(buffer, kept);
}

#[test]
fn broadcast_goes_to_all_but_the_origin() {
    let mut buffer = filled_buffer();
    let sent = relay_datagram(&received(EVERYONE), &interfaces(), rules(None, None), &mut buffer)
        .unwrap();
    assert_eq!(sent.iter().map(|t| t.interface).collect::<Vec<_>>(), [1, 2]);
    let sender = SocketAddress { ip: ip(192, 168, 10, 77), port: 0xC001 };
    for transmission in &sent {
        let everyone = interfaces()[transmission.interface].destination_addr;
        assert_eq!(transmission.from, sender);
        assert_eq!(transmission.to, SocketAddress { ip: everyone, port: 1900 });
        let frame = &transmission.frame;
        assert_eq!(frame.len(), 33);
        assert_eq!(frame[..12], [0x45, 0, 0, 33, 0x12, 0x34, 0, 0, 65, 0x11, 0, 0]);
        assert_eq!(frame[12..16], [192, 168, 10, 77]);
        assert_eq!(frame[16..20], everyone.octets());
        assert_eq!(frame[20..28], [0xC0, 0x01, 0x07, 0x6C, 0, 13, 0, 0]);
        assert_eq!(&frame[28..], b"hello");
    }
    assert_eq!(buffer[16..20], [10, 66, 2, 13]);
}

#[test]
fn network_broadcast_becomes_that_of_the_next_network() {
    let mut buffer = filled_buffer();
    let datagram = received(ip(192, 168, 10, 255));
    let sent = relay_datagram(&datagram, &interfaces(), rules(None, None), &mut buffer).unwrap();
    assert_eq!(sent[0].to.ip, ip(192, 168, 30, 255));
    assert_eq!(sent[1].to.ip, ip(10, 66, 2, 13));
}

#[test]
fn multicast_keeps_its_group() {
    let mut buffer = filled_buffer();
    let group = ip(239, 255, 255, 250);
    let sent =
        relay_datagram(&received(group), &interfaces(), rules(None, None), &mut buffer).unwrap();
    assert!(sent.len() == 2 && sent.iter().all(|t| t.to.ip == group));
}

#[test]
fn forged_sources() {
    let source_of = |source: Ipv4Address| {
        let mut buffer = filled_buffer();
        let rules = rules(Some(source), None);
        let sent = relay_datagram(&received(EVERYONE), &interfaces(), rules, &mut buffer).unwrap();
        (sent[0].frame[12..16].to_vec(), sent[0].frame[20..22].to_vec())
    };
    assert_eq!(source_of(ip(1, 1, 1, 1)), (vec![192, 168, 30, 9], vec![0x07, 0x6C]));
    assert_eq!(source_of(ip(1, 1, 1, 2)), (vec![192, 168, 30, 9], vec![0xC0, 0x01]));
    assert_eq!(source_of(ip(8, 8, 8, 8)), (vec![8, 8, 8, 8], vec![0xC0, 0x01]));
}

#[test]
fn redirected_to_one_host_and_back_to_everyone() {
    let mut buffer = filled_buffer();
    let one = relay_datagram(
        &received(EVERYONE),
        &interfaces(),
        rules(None, Some(ip(10, 66, 2, 13))),
        &mut buffer,
    )
    .unwrap();
    assert_eq!(one.iter().map(|t| t.interface).collect::<Vec<_>>(), [0, 1, 2]);
    assert!(one.iter().all(|t| t.to.ip == ip(10, 66, 2, 13)));

    let second = ForwardRules { ttl: ttl_mark(2), ..rules(None, Some(EVERYONE)) };
    let datagram = Received {
        control: vec![
            ControlMessage::Ttl(i32::from(one[2].frame[8])),
            ControlMessage::PacketInfo { ifindex: 4, addr: ip(10, 66, 2, 13) },
        ],
        ..received(EVERYONE)
    };
    let back = relay_datagram(&datagram, &interfaces(), second, &mut buffer).unwrap();
    assert_eq!(back.iter().map(|t| t.to.ip).collect::<Vec<_>>(), [
        ip(192, 168, 10, 255),
        ip(192, 168, 30, 255),
    ]);
    assert_eq!(back[0].frame[12..16], [192, 168, 10, 77]);
}

#[test]
fn redirected_to_a_group() {
    let mut buffer = filled_buffer();
    let group = ip(239, 255, 255, 250);
    let rules = rules(None, Some(group));
    let sent = relay_datagram(&received(EVERYONE), &interfaces(), rules, &mut buffer).unwrap();
    assert_eq!(sent.iter().map(|t| t.interface).collect::<Vec<_>>(), [1, 2]);
    for transmission in &sent {
        assert_eq!(transmission.to, SocketAddress { ip: group, port: 1900 });
        assert_eq!(transmission.frame[16..20], [239, 255, 255, 250]);
    }
    let [first, second, _] = interfaces()[..] else { panic!() };
    assert!(leaves_through(rules, &second, &first));
    assert!(!leaves_through(rules, &first, &first));
}

#[test]
fn large_payloads_are_relayed() {
    for len in [4039, 4040, 4067] {
        let mut buffer = gram_buffer();
        buffer[28..28 + len].fill(7);
        let datagram = Received { len: len as isize, ..received(EVERYONE) };
        let sent =
            relay_datagram(&datagram, &interfaces(), rules(None, None), &mut buffer).unwrap();
        assert_eq!(sent.len(), 2);
        assert_eq!(sent[0].frame.len(), 28 + len);
        assert!(sent[0].frame[28..].iter().all(|byte| *byte == 7));
    }
}

#[test]
fn own_packets_are_ignored() {
    let mut buffer = filled_buffer();
    let sent = relay_datagram(&received(EVERYONE), &interfaces(), rules(None, None), &mut buffer)
        .unwrap();
    let echo = |interface: i32| Received {
        control: vec![
            ControlMessage::Ttl(i32::from(sent[0].frame[8])),
            ControlMessage::PacketInfo { ifindex: interface, addr: EVERYONE },
        ],
        ..received(EVERYONE)
    };
    for ifindex in [2, 3, 4, 99] {
        let result = relay_datagram(&echo(ifindex), &interfaces(), rules(None, None), &mut buffer);
        assert_eq!(result.unwrap_err(), Dropped::Echo);
    }
    let other = ForwardRules { ttl: ttl_mark(2), ..rules(None, None) };
    assert!(relay_datagram(&echo(2), &interfaces(), other, &mut buffer).is_ok());
}

#[test]
fn headers_survive_many_turns() {
    let mut buffer = filled_buffer();
    for turn in 0..3u8 {
        buffer[28..33].copy_from_slice(&[turn; 5]);
        let sent =
            relay_datagram(&received(EVERYONE), &interfaces(), rules(None, None), &mut buffer)
                .unwrap();
        assert_eq!(sent[1].frame[..2], [0x45, 0]);
        assert_eq!(sent[1].frame[4..8], [0x12, 0x34, 0, 0]);
        assert_eq!(sent[1].frame[9..12], [0x11, 0, 0]);
        assert_eq!(sent[1].frame[26..], [0, 0, turn, turn, turn, turn, turn]);
    }
}

#[test]
fn nothing_is_sent_without_interfaces() {
    let mut buffer = gram_buffer();
    let info = ReceivedPacketInfo {
        originally_from: SocketAddress { ip: ip(1, 2, 3, 4), port: 5 },
        originally_to_address: EVERYONE,
        size_received: 100_000,
        from_interface: interfaces()[0],
    };
    let only_origin = vec![interfaces()[0]];
    assert!(forward_packet(&vec![], rules(None, None), &mut buffer, &info).is_empty());
    assert!(forward_packet(&only_origin, rules(None, None), &mut buffer, &info).is_empty());
    assert_eq!(buffer, gram_buffer());
}
