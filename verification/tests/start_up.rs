use udp_broadcast_relay::addr::{Ipv4Address, SocketAddress};
use udp_broadcast_relay::discovery::{judge, Discovery, Probe, Progress, Reply, Verdict};
use udp_broadcast_relay::interface::MachineIterface;
use udp_broadcast_relay::setup::{
    after_listener_step, after_sender_step, bind_address, broadcast_receiver_setup, ready_relays,
    sender_setup, setup_start, ListenerStep, Platform, SenderStep, SetupProgress,
};

fn ip(a: u8, b: u8, c: u8, d: u8) -> Ipv4Address {
    Ipv4Address::new(a, b, c, d)
}

/// Answers each question about the interface at a position in turn.
fn search(replies: &[Reply], names: usize) -> Discovery {
    let mut discovery = Discovery::new(names);
    for reply in replies {
        assert!(matches!(discovery.progress(), Progress::Probing { .. }));
        discovery.advance(*reply);
    }
    discovery
}

#[test]
fn interfaces_are_found_in_order() {
    let flags = libc::IFF_UP | libc::IFF_BROADCAST;
    let discovery = search(
        &[
            Reply::Index(2),
            Reply::Flags(flags),
            Reply::Address(ip(192, 168, 10, 9)),
            Reply::Address(ip(192, 168, 10, 255)),
            Reply::SocketReady,
            Reply::Index(1),
            Reply::Flags(libc::IFF_UP | libc::IFF_LOOPBACK),
            Reply::Index(3),
            Reply::Flags(libc::IFF_BROADCAST),
            Reply::Index(4),
            Reply::Flags(libc::IFF_UP),
            Reply::Address(ip(10, 66, 2, 12)),
            Reply::Address(ip(10, 66, 2, 13)),
            Reply::SocketReady,
            Reply::Index(5),
            Reply::Flags(flags),
            Reply::Address(ip(192, 168, 30, 9)),
            Reply::Address(ip(0, 0, 0, 0)),
            Reply::Address(ip(255, 255, 255, 0)),
            Reply::SocketReady,
        ],
        5,
    );
    assert!(matches!(discovery.progress(), Progress::Finished));
    let found = discovery.finish().unwrap();
    let expected = [
        MachineIterface {
            destination_addr: ip(192, 168, 10, 255),
            interface_addr: ip(192, 168, 10, 9),
            ifindex: 2,
        },
        MachineIterface {
            destination_addr: ip(10, 66, 2, 13),
            interface_addr: ip(10, 66, 2, 12),
            ifindex: 4,
        },
        MachineIterface {
            destination_addr: ip(192, 168, 30, 255),
            interface_addr: ip(192, 168, 30, 9),
            ifindex: 5,
        },
    ];
    assert_eq!(found, expected);
}

#[test]
fn questions_follow_the_answers() {
    let flags = libc::IFF_UP;
    let mut discovery = search(&[Reply::Index(7), Reply::Flags(flags)], 1);
    assert!(matches!(
        discovery.progress(),
        Progress::Probing { position: 0, probe: Probe::Address { index: 7, .. } }
    ));
    discovery.advance(Reply::Address(ip(10, 0, 0, 1)));
    assert!(matches!(
        discovery.progress(),
        Progress::Probing { probe: Probe::Destination { index: 7, .. }, .. }
    ));
    discovery.advance(Reply::Address(ip(0, 0, 0, 0)));
    assert!(matches!(
        discovery.progress(),
        Progress::Probing { probe: Probe::Netmask { index: 7, .. }, .. }
    ));
    let discovery =
        search(&[Reply::Index(7), Reply::Flags(flags | libc::IFF_BROADCAST), Reply::Address(ip(10, 0, 0, 1))], 1);
    assert!(matches!(
        discovery.progress(),
        Progress::Probing { probe: Probe::Broadcast { index: 7, .. }, .. }
    ));
}

#[test]
fn no_names_no_search() {
    let discovery = Discovery::new(0);
    assert!(matches!(discovery.progress(), Progress::Finished));
    assert!(discovery.into_interfaces().is_empty());
}

#[test]
fn unknown_name_ends_the_search() {
    let discovery = search(
        &[Reply::Index(1), Reply::Flags(libc::IFF_UP | libc::IFF_LOOPBACK), Reply::Index(0)],
        3,
    );
    assert!(matches!(
        discovery.progress(),
        Progress::Failed { position: 1, probe: Probe::Index }
    ));
}

#[test]
fn failure_ends_the_search() {
    let discovery = search(&[Reply::Index(1), Reply::Failed], 1);
    assert!(matches!(
        discovery.progress(),
        Progress::Failed { position: 0, probe: Probe::Flags { index: 1 } }
    ));
}

#[test]
fn each_refusal_ends_the_search() {
    let address = Reply::Address(ip(10, 0, 0, 1));
    let nowhere = Reply::Address(ip(0, 0, 0, 0));
    let told = [Reply::Index(1), Reply::Flags(libc::IFF_UP), address, nowhere, address];
    for known in 0..=told.len() {
        let mut discovery = search(&told[..known], 2);
        let Progress::Probing { position: 0, probe } = discovery.progress() else { panic!() };
        discovery.advance(Reply::Failed);
        let Progress::Failed { position: 0, probe: failed } = discovery.progress() else {
            panic!()
        };
        assert_eq!(format!("{failed:?}"), format!("{probe:?}"));
        discovery.advance(Reply::Index(1));
        assert!(matches!(discovery.progress(), Progress::Failed { position: 0, .. }));
        assert!(discovery.into_interfaces().is_empty());
    }
}

#[test]
fn only_a_finished_search_gives_interfaces() {
    let replies = [
        Reply::Index(1),
        Reply::Flags(libc::IFF_UP),
        Reply::Address(ip(10, 0, 0, 1)),
        Reply::Address(ip(10, 0, 0, 2)),
        Reply::SocketReady,
    ];
    assert_eq!(search(&replies, 1).finish().unwrap().len(), 1);
    assert!(matches!(
        search(&replies, 2).finish(),
        Err(Progress::Probing { position: 1, probe: Probe::Index })
    ));
    let mut failed = search(&replies, 2);
    failed.advance(Reply::Index(0));
    assert!(matches!(
        failed.finish(),
        Err(Progress::Failed { position: 1, probe: Probe::Index })
    ));
    assert!(Discovery::new(0).finish().unwrap().is_empty());
}

#[test]
fn unknown_name_behind_a_refusal() {
    let discovery = search(&[Reply::Index(1), Reply::Failed], 2);
    assert!(matches!(
        discovery.finish(),
        Err(Progress::Failed { position: 0, probe: Probe::Flags { index: 1 } })
    ));
}

#[test]
fn unfit_answer_ends_the_search() {
    assert!(matches!(judge(Probe::Index, Reply::SocketReady), Verdict::Fail));
    assert!(matches!(judge(Probe::Flags { index: 1 }, Reply::Index(1)), Verdict::Fail));
    assert!(matches!(
        judge(Probe::Flags { index: 1 }, Reply::Flags(libc::IFF_LOOPBACK)),
        Verdict::Skip
    ));
    let discovery = search(&[Reply::Index(1), Reply::SocketReady], 1);
    assert!(matches!(
        discovery.progress(),
        Progress::Failed { position: 0, probe: Probe::Flags { index: 1 } }
    ));
}

#[test]
fn ended_search_stays_as_it_is() {
    let mut discovery =
        search(&[Reply::Index(1), Reply::Flags(libc::IFF_UP | libc::IFF_LOOPBACK)], 1);
    discovery.advance(Reply::Failed);
    assert!(matches!(discovery.progress(), Progress::Finished));
}

#[test]
fn joined_searches() {
    let served = |index: u32, last: u8| {
        vec![
            Reply::Index(index),
            Reply::Flags(libc::IFF_UP),
            Reply::Address(ip(10, 0, 0, last)),
            Reply::Address(ip(10, 0, 0, last + 1)),
            Reply::SocketReady,
        ]
    };
    let skipped = vec![Reply::Index(9), Reply::Flags(0)];
    let first = [served(1, 10), skipped.clone()].concat();
    let second = [skipped, served(2, 20)].concat();
    let joined = [first.clone(), second.clone()].concat();
    let mut found = search(&first, 2).into_interfaces();
    found.extend(search(&second, 2).into_interfaces());
    assert_eq!(found.len(), 2);
    let both = search(&joined, 4);
    assert!(matches!(both.progress(), Progress::Finished));
    assert_eq!(both.into_interfaces(), found);
    let failing = [first, vec![Reply::Index(0)]].concat();
    assert!(matches!(
        search(&failing, 4).progress(),
        Progress::Failed { position: 2, probe: Probe::Index }
    ));
}

#[test]
fn large_index_wraps() {
    let discovery = search(
        &[
            Reply::Index(u32::MAX),
            Reply::Flags(libc::IFF_UP),
            Reply::Address(ip(10, 0, 0, 1)),
            Reply::Address(ip(10, 0, 0, 2)),
            Reply::SocketReady,
        ],
        1,
    );
    assert_eq!(discovery.into_interfaces()[0].ifindex, -1);
}

fn two_interfaces() -> Vec<MachineIterface> {
    vec![
        MachineIterface {
            destination_addr: ip(10, 0, 0, 255),
            interface_addr: ip(10, 0, 0, 1),
            ifindex: 1,
        },
        MachineIterface {
            destination_addr: ip(10, 0, 1, 255),
            interface_addr: ip(10, 0, 1, 1),
            ifindex: 2,
        },
    ]
}

#[test]
fn listener_joins_every_group_on_every_interface() {
    let groups = vec![ip(224, 0, 0, 251), ip(239, 255, 255, 250)];
    let steps = broadcast_receiver_setup(Platform::Linux, &groups, &two_interfaces(), 1900);
    let join = |group: Ipv4Address, interface_addr: Ipv4Address| ListenerStep::Join {
        group,
        interface_addr,
    };
    assert_eq!(
        steps,
        vec![
            ListenerStep::Broadcast,
            ListenerStep::ReusePort,
            ListenerStep::TellTtl,
            ListenerStep::TellPacketInfo,
            join(groups[0], ip(10, 0, 0, 1)),
            join(groups[0], ip(10, 0, 1, 1)),
            join(groups[1], ip(10, 0, 0, 1)),
            join(groups[1], ip(10, 0, 1, 1)),
            ListenerStep::Bind { address: SocketAddress { ip: ip(0, 0, 0, 0), port: 1900 } },
        ]
    );
}

#[test]
fn listener_elsewhere() {
    for platform in [Platform::FreeBsd, Platform::MacOs] {
        let steps = broadcast_receiver_setup(platform, &vec![], &two_interfaces(), 9);
        assert_eq!(
            steps,
            vec![
                ListenerStep::Broadcast,
                ListenerStep::ReusePort,
                ListenerStep::TellTtl,
                ListenerStep::TellInterface,
                ListenerStep::TellDestination,
                ListenerStep::Bind { address: bind_address(9) },
            ]
        );
    }
}

#[test]
fn sender_steps() {
    let linux = sender_setup(Platform::Linux, ip(10, 0, 0, 1), 65);
    assert_eq!(
        linux,
        vec![
            SenderStep::Broadcast,
            SenderStep::HeaderIncluded,
            SenderStep::ReusePort,
            SenderStep::BindDevice,
        ]
    );
    assert!(linux.iter().all(|step| !step.is_optional()));
    let freebsd = sender_setup(Platform::FreeBsd, ip(10, 0, 0, 1), 65);
    assert_eq!(freebsd, sender_setup(Platform::MacOs, ip(10, 0, 0, 1), 65));
    assert_eq!(
        freebsd[3..],
        [
            SenderStep::MulticastLoopOff,
            SenderStep::MulticastInterface(ip(10, 0, 0, 1)),
            SenderStep::MulticastTtl(65),
        ]
    );
    assert!(freebsd[3..].iter().all(|step| step.is_optional()));
}

#[test]
fn listener_stops_at_the_first_failure() {
    let groups = vec![ip(224, 0, 0, 251), ip(239, 255, 255, 250)];
    let steps = broadcast_receiver_setup(Platform::Linux, &groups, &two_interfaces(), 1900);
    for failing in 0..=steps.len() {
        let mut taken = vec![];
        let mut progress = setup_start(steps.len());
        while let SetupProgress::Take { position } = progress {
            taken.push(steps[position]);
            progress = after_listener_step(steps.len(), position, position != failing);
        }
        if failing < steps.len() {
            assert_eq!(progress, SetupProgress::Failed { position: failing });
            assert_eq!(taken, steps[..=failing]);
        } else {
            assert_eq!(progress, SetupProgress::Ready);
            assert_eq!(taken, steps);
        }
    }
    assert_eq!(setup_start(0), SetupProgress::Ready);
    assert_eq!(after_listener_step(1, 0, true), SetupProgress::Ready);
    assert_eq!(
        after_listener_step(usize::MAX, usize::MAX - 1, true),
        SetupProgress::Ready
    );
}

#[test]
fn sender_goes_on_without_optional_steps() {
    let steps = sender_setup(Platform::FreeBsd, ip(10, 0, 0, 1), 65);
    assert_eq!(after_sender_step(&steps, 2, false), SetupProgress::Failed { position: 2 });
    assert_eq!(after_sender_step(&steps, 2, true), SetupProgress::Take { position: 3 });
    assert_eq!(after_sender_step(&steps, 3, false), SetupProgress::Take { position: 4 });
    assert_eq!(after_sender_step(&steps, 5, false), SetupProgress::Ready);
    let steps = sender_setup(Platform::Linux, ip(10, 0, 0, 1), 65);
    assert_eq!(after_sender_step(&steps, 3, false), SetupProgress::Failed { position: 3 });
}

#[test]
fn ready_sockets() {
    let revents = vec![libc::POLLIN, 0, libc::POLLERR, libc::POLLIN | libc::POLLHUP];
    assert_eq!(ready_relays(2, &revents), vec![0, 3]);
    assert_eq!(ready_relays(0, &revents), vec![0, 3]);
    assert!(ready_relays(-1, &revents).is_empty());
    assert!(ready_relays(1, &vec![]).is_empty());
}
