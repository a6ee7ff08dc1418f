use fluxvm::cidr::{explain, parse_ipv4_cidr, to_dotted, to_octets, Ipv4Cidr};
use fluxvm::step::CidrError;
use fluxvm::vmid::{hyphenated_text, simple_text, VmId};

#[test]
fn cidr_is_network_normalized() {
    let c = parse_ipv4_cidr("10.20.30.99/24").unwrap();
    assert_eq!(c.network, u32::from_be_bytes([10, 20, 30, 0]));
    assert_eq!(c.prefix, 24);
}

#[test]
fn cidr_zero_prefix_is_supported() {
    let c = parse_ipv4_cidr("203.0.113.7/0").unwrap();
    assert_eq!(c.network, 0);
    assert_eq!(c.prefix, 0);
}

#[test]
fn invalid_prefix_is_rejected() {
    assert!(parse_ipv4_cidr("10.0.0.1/33").is_err());
}

#[test]
fn cidr_normalization() {
    let c = parse_ipv4_cidr("198.51.100.99/24").unwrap();
    assert_eq!(c.network, u32::from_be_bytes([198, 51, 100, 0]));
    assert_eq!(c.prefix, 24);
}

#[test]
fn each_flaw_of_a_network_is_told() {
    assert_eq!(parse_ipv4_cidr("10.0.0.1"), Err(CidrError::NoPrefix));
    assert_eq!(parse_ipv4_cidr("10.0.0/8"), Err(CidrError::BadAddress));
    assert_eq!(parse_ipv4_cidr("10.0.0.01/8"), Err(CidrError::BadAddress));
    assert_eq!(parse_ipv4_cidr("10.0.0.256/8"), Err(CidrError::BadAddress));
    assert_eq!(parse_ipv4_cidr("10.0.0.1.2/8"), Err(CidrError::BadAddress));
    assert_eq!(parse_ipv4_cidr("+1.0.0.1/8"), Err(CidrError::BadAddress));
    assert_eq!(parse_ipv4_cidr("10.0.0.1/"), Err(CidrError::BadPrefix));
    assert_eq!(parse_ipv4_cidr("10.0.0.1/x"), Err(CidrError::BadPrefix));
    assert_eq!(parse_ipv4_cidr("10.0.0.1/256"), Err(CidrError::BadPrefix));
    assert_eq!(parse_ipv4_cidr("10.0.0.1/8/8"), Err(CidrError::BadPrefix));
    assert_eq!(parse_ipv4_cidr("10.0.0.1/33"), Err(CidrError::PrefixTooLong));
}

#[test]
fn what_is_wrong_with_a_network_is_quoted() {
    assert_eq!(explain("10.0.0.1"), "CIDR \"10.0.0.1\" must include /prefix");
    assert_eq!(explain("a\"b"), format!("CIDR {:?} must include /prefix", "a\"b"));
    assert_eq!(explain("10.0\t/8"), "invalid IPv4 \"10.0\\t\"");
    assert_eq!(explain("10.0.0.1/x"), "invalid prefix in \"10.0.0.1/x\"");
    assert_eq!(explain("10.0.0.1/33"), "IPv4 prefix must be <= 32, got 33");
}

#[test]
fn a_network_is_read_back_as_it_is_written() {
    let net = Ipv4Cidr { network: u32::from_be_bytes([192, 0, 2, 128]), prefix: 25 };
    let b = to_octets(net.network);
    let written = format!("{}/{}", to_dotted(b[0], b[1], b[2], b[3]), net.prefix);
    assert_eq!(written, "192.0.2.128/25");
    assert_eq!(parse_ipv4_cidr(&written), Ok(net));
    assert_eq!(parse_ipv4_cidr("255.255.255.255/32").unwrap().network, u32::MAX);
    assert_eq!(parse_ipv4_cidr("1.2.3.4/+8").unwrap().network, u32::from_be_bytes([1, 0, 0, 0]));
}

#[test]
fn ids_are_written_as_uuids() {
    let id = VmId { bits: 0x0123_4567_89ab_cdef_fedc_ba98_7654_3210 };
    assert_eq!(simple_text(id), "0123456789abcdeffedcba9876543210");
    assert_eq!(hyphenated_text(id), "01234567-89ab-cdef-fedc-ba9876543210");
    let random = uuid::Uuid::from_u128(0xf00d);
    assert_eq!(simple_text(VmId { bits: random.as_u128() }), random.simple().to_string());
    assert_eq!(hyphenated_text(VmId { bits: random.as_u128() }), random.to_string());
}
