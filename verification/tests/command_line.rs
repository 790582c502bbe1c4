use udp_broadcast_relay::addr::{ip_from_raw, port_from_raw, Ipv4Address};
use udp_broadcast_relay::dotted::parse_ipv4;
use udp_broadcast_relay::ifname::{parse_interface, InterfaceNameError, NAME_SIZE};
use udp_broadcast_relay::mark::ttl_mark;
use udp_broadcast_relay::relay_port::{
    invalid_multicast_message, invalid_port_message, parse_relay, read_relay, RelayError,
};
use udp_broadcast_relay::setup::runs_in_background;
use udp_broadcast_relay::spoof::{
    source_mode, target_mode, InvalidSourceIp, SpoofDestAddrMode, SpoofFromAddrMode,
};
use udp_broadcast_relay::text::{parse_u16, split_str};

fn ip(a: u8, b: u8, c: u8, d: u8) -> Ipv4Address {
    Ipv4Address::new(a, b, c, d)
}

fn relay(value: &str) -> (u16, Vec<Ipv4Address>) {
    let spec = parse_relay(value).unwrap();
    (spec.port, spec.multicast)
}

#[test]
fn relay_values_of_the_documentation() {
    assert_eq!(relay("1900:239.255.255.250"), (1900, vec![ip(239, 255, 255, 250)]));
    assert_eq!(
        relay("1900:224.0.0.251,239.255.255.250"),
        (1900, vec![ip(224, 0, 0, 251), ip(239, 255, 255, 250)])
    );
    assert_eq!(relay("9"), (9, vec![]));
}

#[test]
fn relay_values_at_the_edges() {
    assert_eq!(relay("1"), (1, vec![]));
    assert_eq!(relay("65535"), (65535, vec![]));
    assert_eq!(relay("+9"), (9, vec![]));
    assert_eq!(relay("0009"), (9, vec![]));
    assert_eq!(relay("9:"), (9, vec![]));
    assert_eq!(relay("9:10.0.0.1"), (9, vec![ip(10, 0, 0, 1)]));
}

#[test]
fn relay_value_is_cloned() {
    let spec = parse_relay("1900:239.255.255.250").unwrap();
    let copy = spec.clone();
    assert_eq!(copy.port, 1900);
    assert_eq!(copy.multicast, spec.multicast);
}

#[test]
fn relay_port_messages() {
    assert_eq!(parse_relay("").unwrap_err(), "invalid relay port: \"\"");
    assert_eq!(parse_relay("abc").unwrap_err(), "invalid relay port: \"abc\"");
    assert_eq!(parse_relay("65536").unwrap_err(), "invalid relay port: \"65536\"");
    assert_eq!(parse_relay("-1").unwrap_err(), "invalid relay port: \"-1\"");
    assert_eq!(parse_relay("+").unwrap_err(), "invalid relay port: \"+\"");
    assert_eq!(parse_relay(" 9").unwrap_err(), "invalid relay port: \" 9\"");
    assert_eq!(parse_relay("9\n:1.1.1.1").unwrap_err(), "invalid relay port: \"9\\n\"");
    assert_eq!(
        parse_relay("99999999999999999999").unwrap_err(),
        "invalid relay port: \"99999999999999999999\""
    );
    assert_eq!(parse_relay("0").unwrap_err(), "relay port must be between 1 and 65535");
    assert_eq!(parse_relay("00:x").unwrap_err(), "relay port must be between 1 and 65535");
}

#[test]
fn relay_group_messages() {
    assert_eq!(parse_relay("9:x").unwrap_err(), "invalid multicast address: \"x\"");
    assert_eq!(parse_relay("9:1.2.3.4,").unwrap_err(), "invalid multicast address: \"\"");
    assert_eq!(parse_relay("9:,1.2.3.4").unwrap_err(), "invalid multicast address: \"\"");
    assert_eq!(
        parse_relay("9:1.2.3.4,a\"b,y").unwrap_err(),
        "invalid multicast address: \"a\\\"b\""
    );
    assert_eq!(
        parse_relay("9:1.2.3.4:5").unwrap_err(),
        "invalid multicast address: \"1.2.3.4:5\""
    );
}

#[test]
fn relay_errors_by_kind() {
    assert!(matches!(read_relay("x"), Err(RelayError::InvalidPort(text)) if text == "x"));
    assert!(matches!(read_relay("0"), Err(RelayError::ZeroPort)));
    assert!(matches!(read_relay("9:é"), Err(RelayError::InvalidMulticast(text)) if text == "é"));
}

#[test]
fn messages_take_the_quoted_text_as_it_is() {
    assert_eq!(invalid_port_message("<p>"), "invalid relay port: <p>");
    assert_eq!(invalid_multicast_message("<g>"), "invalid multicast address: <g>");
}

#[test]
fn addresses_in_dotted_decimal() {
    for (text, octets) in [
        ("0.0.0.0", [0, 0, 0, 0]),
        ("255.255.255.255", [255, 255, 255, 255]),
        ("1.2.3.4", [1, 2, 3, 4]),
        ("10.66.2.13", [10, 66, 2, 13]),
        ("199.100.90.9", [199, 100, 90, 9]),
    ] {
        assert_eq!(parse_ipv4(text).unwrap().octets(), octets);
    }
}

#[test]
fn strings_that_are_no_address() {
    for text in [
        "256.1.1.1",
        "01.2.3.4",
        "00.2.3.4",
        "1.2.3",
        "1.2.3.4.5",
        "1.2.3.",
        ".1.2.3",
        "",
        "1..2.3",
        "+1.2.3.4",
        "1.2.3.4 ",
        "1.2.3.a",
        "1.2.3.1000",
        "1.2.3.999",
        "0x1.2.3.4",
    ] {
        assert_eq!(parse_ipv4(text), None, "{text}");
    }
}

#[test]
fn numbers_read_like_those_of_std() {
    for text in ["", "+", "-", "0", "00", "+0", "++1", "-0", "65535", "65536", "70000", "1_0", "１", "9 "] {
        assert_eq!(parse_u16(text), text.parse::<u16>().ok(), "{text}");
    }
}

#[test]
fn strings_split_like_those_of_std() {
    for text in ["", ",", "a", "a,b", ",a,,b,", "é,ü"] {
        assert_eq!(split_str(text, ','), text.split(',').collect::<Vec<_>>(), "{text}");
    }
}

#[test]
fn raw_addresses_and_ports() {
    assert_eq!(ip_from_raw([192, 168, 1, 2]), ip(192, 168, 1, 2));
    assert_eq!(ip_from_raw([192, 168, 1, 2]).octets(), [192, 168, 1, 2]);
    assert_eq!(port_from_raw([0x12, 0x34]), 0x1234);
}

#[test]
fn address_classes() {
    assert!(ip(255, 255, 255, 255).is_broadcast());
    assert!(!ip(192, 168, 1, 255).is_broadcast());
    assert!(ip(224, 0, 0, 0).is_multicast());
    assert!(ip(239, 255, 255, 255).is_multicast());
    assert!(!ip(223, 255, 255, 255).is_multicast());
    assert!(!ip(240, 0, 0, 0).is_multicast());
    assert!(ip(0, 0, 0, 0).is_unspecified());
    assert!(!ip(0, 0, 0, 1).is_unspecified());
    assert_eq!(ip(10, 1, 2, 3).broadcast_within(ip(255, 255, 252, 0)), ip(10, 1, 3, 255));
}

#[test]
fn interface_names_are_read_back() {
    for name in ["eth0", "", "br-lan", "fifteen-bytes-x", "réseau"] {
        let validated = parse_interface(name).unwrap();
        assert_eq!(validated.as_str(), name);
        assert_eq!(validated.clone().as_str(), name);
    }
    let mut expected = [0u8; 16];
    expected[..4].copy_from_slice(b"eth0");
    assert_eq!(parse_interface("eth0").unwrap().as_bytes_with_nul(), expected);
}

#[test]
fn interface_names_are_refused() {
    assert_eq!(parse_interface("sixteen-bytes-xx").unwrap_err(), InterfaceNameError::TooLong);
    assert_eq!(parse_interface("eight-é-eight-é").unwrap_err(), InterfaceNameError::TooLong);
    assert_eq!(parse_interface("a\0b").unwrap_err(), InterfaceNameError::InteriorNul);
    assert_eq!(
        parse_interface("a\0b-and-much-too-long").unwrap_err(),
        InterfaceNameError::InteriorNul
    );
    assert_eq!(InterfaceNameError::InteriorNul.message(), "value with interior NUL");
    assert_eq!(InterfaceNameError::TooLong.message(), "value too long");
}

#[test]
fn room_for_names_is_that_of_the_system() {
    assert_eq!(NAME_SIZE, libc::IFNAMSIZ);
}

#[test]
fn source_addresses() {
    assert_eq!(source_mode(None), Ok(None));
    assert_eq!(source_mode(Some(ip(1, 1, 1, 1))), Ok(Some(SpoofFromAddrMode::BroadcastPort)));
    assert_eq!(source_mode(Some(ip(1, 1, 1, 2))), Ok(Some(SpoofFromAddrMode::SourcePort)));
    assert_eq!(
        source_mode(Some(ip(1, 1, 1, 3))),
        Ok(Some(SpoofFromAddrMode::Other(ip(1, 1, 1, 3))))
    );
    let everyone = ip(255, 255, 255, 255);
    assert_eq!(source_mode(Some(everyone)), Err(InvalidSourceIp { source: everyone }));
}

#[test]
fn target_addresses() {
    assert_eq!(target_mode(None), None);
    assert_eq!(
        target_mode(Some(ip(255, 255, 255, 255))),
        Some(SpoofDestAddrMode::NewInterfaceBroadcast)
    );
    assert_eq!(
        target_mode(Some(ip(10, 66, 2, 13))),
        Some(SpoofDestAddrMode::Other(ip(10, 66, 2, 13)))
    );
}

#[test]
fn marks_of_ids() {
    assert_eq!(ttl_mark(1), 65);
    assert_eq!(ttl_mark(99), 163);
}

#[test]
fn background() {
    assert!(runs_in_background(false, true));
    assert!(!runs_in_background(true, true));
    assert!(!runs_in_background(false, false));
}
