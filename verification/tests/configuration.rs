use std::time::Duration;

use turnip::address::{split_address, Address, IpAddress};
use turnip::netns::{opens_existing, CreateFailure};
use turnip::options::{check_mtu_message_size, is_mtu_too_small, parse_millis};

#[test]
fn milliseconds() {
    assert_eq!(parse_millis("50"), Ok(Duration::from_millis(50)));
    assert_eq!(parse_millis("+7"), Ok(Duration::from_millis(7)));
    assert_eq!(parse_millis("0010"), Ok(Duration::from_millis(10)));
    assert_eq!(parse_millis("18446744073709551615"), Ok(Duration::from_millis(u64::MAX)));
    for text in ["", "+", "-1", " 5", "5 ", "1_000", "0x10", "1.5", "18446744073709551616", "five"] {
        assert_eq!(parse_millis(text), Err("expected a number of milliseconds"));
    }
}

#[test]
fn payload_sizes() {
    assert_eq!(check_mtu_message_size(512, None), Ok(1032));
    assert_eq!(check_mtu_message_size(0, None), Ok(8));
    assert_eq!(check_mtu_message_size(u16::MAX, None), Ok(131078));
    assert_eq!(check_mtu_message_size(512, Some(513)), Err(()));
    assert_eq!(check_mtu_message_size(512, Some(514)), Ok(514));
    assert_eq!(check_mtu_message_size(512, Some(9000)), Ok(9000));
}

#[test]
fn small_mtu_is_reported_only() {
    assert!(is_mtu_too_small(63));
    assert!(!is_mtu_too_small(64));
    assert_eq!(check_mtu_message_size(63, None), Ok(134));
}

#[test]
fn addresses_are_split_at_the_first_slash() {
    assert_eq!(split_address("10.0.0.1"), ("10.0.0.1", None));
    assert_eq!(split_address("10.0.0.1/24"), ("10.0.0.1", Some("24")));
    assert_eq!(split_address("a/b/c"), ("a", Some("b/c")));
    assert_eq!(split_address("/"), ("", Some("")));
}

fn prefix(address: IpAddress, prefix: Option<&str>) -> Result<u8, String> {
    Address::from_parts(Some(address), prefix).map(|address| address.prefix)
}

#[test]
fn prefix_lengths() {
    let v4 = IpAddress::V4([10, 0, 0, 1]);
    let v6 = IpAddress::V6([0xfd00, 0, 0, 0, 0, 0, 0, 1]);
    assert_eq!(prefix(v4, None), Ok(32));
    assert_eq!(prefix(v6, None), Ok(128));
    assert_eq!(prefix(v4, Some("24")), Ok(24));
    assert_eq!(prefix(v4, Some("0")), Ok(0));
    assert_eq!(prefix(v4, Some("32")), Ok(32));
    assert_eq!(prefix(v6, Some("64")), Ok(64));
    assert_eq!(prefix(v4, Some("33")), Err("invalid prefix length for IPv4: maximum is 32".to_string()));
    assert_eq!(prefix(v6, Some("129")), Err("invalid prefix length for IPv6: maximum is 128".to_string()));
    for text in ["", "-1", "256", "x", "2 4"] {
        assert_eq!(prefix(v4, Some(text)), Err("invalid prefix length".to_string()));
    }
}

#[test]
fn bad_address_is_reported_first() {
    let result = Address::from_parts(None, Some("x"));
    assert_eq!(result.unwrap_err(), "invalid IP address");
}

#[test]
fn address_text() {
    let address = Address { address: IpAddress::V4([10, 0, 0, 1]), prefix: 24 };
    assert_eq!(address.text("10.0.0.1"), "10.0.0.1/24");
    let address = Address { address: IpAddress::V4([10, 0, 0, 1]), prefix: 0 };
    assert_eq!(address.text("10.0.0.1"), "10.0.0.1/0");
}

#[test]
fn existing_namespace_is_opened_if_creation_is_not_permitted() {
    assert!(opens_existing(CreateFailure::Create(Some(libc::EPERM))));
    assert!(!opens_existing(CreateFailure::Create(Some(libc::EACCES))));
    assert!(!opens_existing(CreateFailure::Create(None)));
    assert!(!opens_existing(CreateFailure::Other));
}

#[test]
fn written_address_is_read_back() {
    let v4 = (IpAddress::V4([10, 0, 0, 1]), "10.0.0.1", 32);
    let v6 = (IpAddress::V6([0xfd00, 0, 0, 0, 0, 0, 0, 1]), "fd00::1", 128);
    for (ip, ip_text, max_prefix) in [v4, v6] {
        for prefix in 0..=max_prefix {
            let text = Address { address: ip, prefix }.text(ip_text);
            assert_eq!(text, format!("{ip_text}/{prefix}"));
            let (first, second) = split_address(&text);
            assert_eq!(first, ip_text);
            let address = Address::from_parts(Some(ip), second).unwrap();
            assert_eq!(address.prefix, prefix);
            match (address.address, ip) {
                (IpAddress::V4(a), IpAddress::V4(b)) => assert_eq!(a, b),
                (IpAddress::V6(a), IpAddress::V6(b)) => assert_eq!(a, b),
                _ => panic!("another kind of address"),
            }
        }
    }
}
