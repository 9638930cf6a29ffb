use ipv6_prefix_filter::packet::{
    extract_prefixes, ra_options_readable,
    router_advert_options_of, NdpOption, PrefixInformation,
};
use ipv6_prefix_filter::prefix::Ipv6Prefix;

const PREFIX_1: u128 = 0x2001_0db8_0001_0000_0000_0000_0000_0000;
const PREFIX_2: u128 = 0x2001_0db8_0002_0000_0000_0000_0000_0000;

/// Prefix Information option: type 3, length 4, prefix length, flags, lifetimes, prefix.
fn pio(prefix: u128, prefix_len: u8) -> Vec<u8> {
    let mut o = vec![3u8, 4, prefix_len, 0xc0];
    o.extend_from_slice(&[0, 0, 0x0e, 0x10]); // valid lifetime 3600
    o.extend_from_slice(&[0, 0, 0x07, 0x08]); // preferred lifetime 1800
    o.extend_from_slice(&[0, 0, 0, 0]);
    o.extend_from_slice(&prefix.to_be_bytes());
    o
}

/// Source link-layer address option: type 1, length 1, 6 bytes of MAC address.
fn slla() -> Vec<u8> {
    vec![1u8, 1, 0x02, 0x11, 0x22, 0x33, 0x44, 0x55]
}

/// An ICMPv6 message of the given type with the 16-byte Router Advertisement fixed part.
fn icmp(icmp_type: u8, options: &[Vec<u8>]) -> Vec<u8> {
    let mut m = vec![icmp_type, 0, 0, 0, 64, 0, 0x07, 0x08, 0, 0, 0, 0, 0, 0, 0, 0];
    for o in options {
        m.extend_from_slice(o);
    }
    m
}

/// An IPv6 packet (next header 58) carrying the payload, with the payload length field set.
fn ipv6(payload: &[u8]) -> Vec<u8> {
    ipv6_declared(payload, payload.len() as u16)
}

fn ipv6_declared(payload: &[u8], declared: u16) -> Vec<u8> {
    let mut p = vec![0x60u8, 0, 0, 0];
    p.extend_from_slice(&declared.to_be_bytes());
    p.push(58);
    p.push(255);
    p.extend_from_slice(&[0xfe, 0x80, 0, 0, 0, 0, 0, 0, 0, 0, 0, 0, 0, 0, 0, 1]);
    p.extend_from_slice(&[0xff, 0x02, 0, 0, 0, 0, 0, 0, 0, 0, 0, 0, 0, 0, 0, 1]);
    p.extend_from_slice(payload);
    p
}

#[test]
fn extracts_the_advertised_prefix() {
    let data = ipv6(&icmp(134, &[slla(), pio(PREFIX_1, 64)]));
    assert!(ra_options_readable(&data));
    let prefixes = extract_prefixes(&data);
    assert_eq!(prefixes, vec![Ipv6Prefix { addr: PREFIX_1, prefix_len: 64 }]);
}

#[test]
fn extracts_every_prefix_in_order() {
    let data = ipv6(&icmp(134, &[pio(PREFIX_2, 48), slla(), pio(PREFIX_1, 64)]));
    let prefixes = extract_prefixes(&data);
    assert_eq!(
        prefixes,
        vec![Ipv6Prefix { addr: PREFIX_2, prefix_len: 48 }, Ipv6Prefix { addr: PREFIX_1, prefix_len: 64 }]
    );
}

#[test]
fn prefix_length_above_128_is_skipped() {
    let data = ipv6(&icmp(134, &[pio(PREFIX_2, 129), pio(PREFIX_1, 64)]));
    assert_eq!(extract_prefixes(&data), vec![Ipv6Prefix { addr: PREFIX_1, prefix_len: 64 }]);
}

#[test]
fn non_advertisement_has_no_prefixes() {
    // neighbour solicitation (135) carrying the same bytes
    let data = ipv6(&icmp(135, &[pio(PREFIX_1, 64)]));
    assert!(router_advert_options_of(&data).is_none());
    assert!(extract_prefixes(&data).is_empty());
}

#[test]
fn short_packets_have_no_prefixes() {
    assert!(extract_prefixes(&[0u8; 39]).is_empty());
    assert!(router_advert_options_of(&[0u8; 39]).is_none());
    // an IPv6 header whose payload is too short for an ICMPv6 message
    let data = ipv6(&[134, 0, 0]);
    assert!(router_advert_options_of(&data).is_none());
    // ICMPv6 type 134 but shorter than the fixed part of an advertisement
    let data = ipv6(&[134, 0, 0, 0, 1, 2, 3, 4]);
    assert!(router_advert_options_of(&data).is_none());
    assert!(extract_prefixes(&data).is_empty());
}

#[test]
fn payload_length_field_cuts_the_options() {
    let payload = icmp(134, &[slla(), pio(PREFIX_1, 64)]);
    // declare only the fixed part and the first option: the prefix option is not read
    let data = ipv6_declared(&payload, 24);
    let opts = router_advert_options_of(&data).unwrap();
    assert_eq!(opts.len(), 1);
    assert_eq!(opts[0].option_type, 1);
    assert!(extract_prefixes(&data).is_empty());
}

#[test]
fn options_are_read_as_pnet_reads_them() {
    let data = ipv6(&icmp(134, &[slla(), pio(PREFIX_1, 64)]));
    let opts = router_advert_options_of(&data).unwrap();
    assert_eq!(opts.len(), 2);
    assert_eq!((opts[0].option_type, opts[0].length), (1, 1));
    assert_eq!(opts[0].data, vec![0x02, 0x11, 0x22, 0x33, 0x44, 0x55]);
    assert_eq!((opts[1].option_type, opts[1].length), (3, 4));
    assert_eq!(opts[1].data.len(), 30);
    assert_eq!(opts[1].data[0], 64);
}

#[test]
fn zero_length_option_advances_two_bytes() {
    // an option with length 0 spans its two bytes; a trailing single byte is not read
    let data = ipv6(&icmp(134, &[vec![5u8, 0], vec![7u8]]));
    let opts = router_advert_options_of(&data).unwrap();
    assert_eq!(opts.len(), 1);
    assert_eq!((opts[0].option_type, opts[0].length), (5, 0));
    assert!(opts[0].data.is_empty());
}

#[test]
fn truncated_option_is_cut_at_the_end() {
    let mut o = pio(PREFIX_1, 64);
    o.truncate(20);
    let data = ipv6(&icmp(134, &[o]));
    let opts = router_advert_options_of(&data).unwrap();
    assert_eq!(opts.len(), 1);
    assert_eq!(opts[0].data.len(), 18);
    assert!(extract_prefixes(&data).is_empty());
}

#[test]
fn long_option_lengths_are_reported_unreadable() {
    let data = ipv6(&icmp(134, &[vec![9u8, 32, 0, 0, 0, 0, 0, 0]]));
    assert!(!ra_options_readable(&data));
    let fine = ipv6(&icmp(134, &[vec![9u8, 31, 0, 0, 0, 0, 0, 0]]));
    assert!(ra_options_readable(&fine));
    // other ICMPv6 types never have their options read as an advertisement's
    let other = ipv6(&icmp(135, &[vec![9u8, 32, 0, 0, 0, 0, 0, 0]]));
    assert!(ra_options_readable(&other));
    assert!(ra_options_readable(&[0u8; 10]));
}

#[test]
fn options_of_other_types_are_not_read() {
    let data = ipv6(&icmp(135, &[pio(PREFIX_1, 64)]));
    assert!(router_advert_options_of(&data).is_none());
    let ra = ipv6(&icmp(134, &[pio(PREFIX_1, 64)]));
    let opts = router_advert_options_of(&ra).unwrap();
    assert_eq!(opts.len(), 1);
    assert_eq!(opts[0].option_type, 3);
}

#[test]
fn option_to_bytes() {
    let o = NdpOption { option_type: 3, length: 4, data: vec![1, 2, 3] };
    assert_eq!(o.to_bytes(), vec![3, 4, 1, 2, 3]);
    // a length field whose byte size wraps only changes the reserved size
    let long = NdpOption { option_type: 9, length: 40, data: vec![7] };
    assert_eq!(long.to_bytes(), vec![9, 40, 7]);
}

#[test]
fn prefix_information_fields() {
    let raw = pio(PREFIX_1, 64);
    let p = PrefixInformation::from_bytes(&raw).unwrap();
    assert_eq!(p.option_type, 3);
    assert_eq!(p.length, 4);
    assert_eq!(p.prefix_length, 64);
    assert_eq!(p.flag, 0xc0);
    assert_eq!(p.valid_lifetime, 3600);
    assert_eq!(p.preferred_lifetime, 1800);
    assert_eq!(p.reserved, 0);
    assert_eq!(p.prefix, PREFIX_1.to_be_bytes().to_vec());
    assert!(PrefixInformation::from_bytes(&raw[..15]).is_none());
    let bare = PrefixInformation::from_bytes(&raw[..16]).unwrap();
    assert!(bare.prefix.is_empty());
}

#[test]
fn prefix_information_read_back_from_option_bytes() {
    let data = ipv6(&icmp(134, &[pio(PREFIX_1, 64)]));
    let opts = router_advert_options_of(&data).unwrap();
    let p = PrefixInformation::from_bytes(&opts[0].to_bytes()).unwrap();
    assert_eq!(p.prefix, opts[0].data[14..].to_vec());
    assert_eq!(p.prefix_length, opts[0].data[0]);
}
