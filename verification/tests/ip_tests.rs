use broker::net::{is_private_ip, IpAddress};

#[test]
fn test_ipv4_private_10() {
    let ip = IpAddress::v4(10, 0, 0, 1);
    assert!(is_private_ip(&ip), "10.0.0.1 should be private");
}

#[test]
fn test_ipv4_private_172_16() {
    let ip = IpAddress::v4(172, 16, 0, 1);
    assert!(is_private_ip(&ip), "172.16.0.1 should be private");
}

#[test]
fn test_ipv4_private_172_31() {
    let ip = IpAddress::v4(172, 31, 255, 254);
    assert!(is_private_ip(&ip), "172.31.255.254 should be private");
}

#[test]
fn test_ipv4_private_192_168() {
    let ip = IpAddress::v4(192, 168, 1, 1);
    assert!(is_private_ip(&ip), "192.168.1.1 should be private");
}

#[test]
fn test_ipv4_private_loopback_127() {
    let ip = IpAddress::v4(127, 0, 0, 1);
    assert!(is_private_ip(&ip), "127.0.0.1 should be private");
}

#[test]
fn test_ipv4_public() {
    let ip = IpAddress::v4(8, 8, 8, 8);
    assert!(!is_private_ip(&ip), "8.8.8.8 should not be private");
}

#[test]
fn test_ipv4_172_not_private() {
    let ip = IpAddress::v4(172, 32, 0, 1);
    assert!(!is_private_ip(&ip), "172.32.0.1 should not be private");
}

#[test]
fn test_ipv4_192_not_private() {
    let ip = IpAddress::v4(192, 0, 0, 1);
    assert!(!is_private_ip(&ip), "192.0.0.1 should not be private");
}

#[test]
fn test_ipv6_private_ula() {
    let ip = IpAddress::v6(0xfc00, 0, 0, 0, 0, 0, 0, 1);
    assert!(is_private_ip(&ip), "fc00::1 should be private (ULA)");
}

#[test]
fn test_ipv6_private_ula_fd() {
    let ip = IpAddress::v6(0xfd00, 0, 0, 0, 0, 0, 0, 1);
    assert!(is_private_ip(&ip), "fd00::1 should be private (ULA)");
}

#[test]
fn test_ipv6_loopback() {
    let ip = IpAddress::v6(0, 0, 0, 0, 0, 0, 0, 1);
    assert!(is_private_ip(&ip), "::1 should be private (loopback)");
}

#[test]
fn test_ipv6_public() {
    let ip = IpAddress::v6(0x2001, 0x0db8, 0, 0, 0, 0, 0, 1);
    assert!(!is_private_ip(&ip), "2001:0db8::1 should not be private");
}

#[test]
fn test_ipv6_not_ula() {
    let ip = IpAddress::v6(0xfe80, 0, 0, 0, 0, 0, 0, 1);
    assert!(!is_private_ip(&ip), "fe80::1 should not be private (not ULA)");
}
