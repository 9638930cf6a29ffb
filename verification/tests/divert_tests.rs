use ipv6_prefix_filter::divert::divert_filter;
use ipv6_prefix_filter::NetworkInterface;

fn text(v: Vec<u8>) -> String {
    String::from_utf8(v).unwrap()
}

#[test]
fn filter_without_interface() {
    assert_eq!(text(divert_filter(&None)), "inbound and !loopback and icmpv6.Type==134");
}

#[test]
fn filter_with_interface_index() {
    let iface = NetworkInterface { name: "Ethernet".to_string(), index: 12 };
    assert_eq!(
        text(divert_filter(&Some(iface))),
        "inbound and !loopback and ifidx==12 and icmpv6.Type==134"
    );
    let zero = NetworkInterface { name: "lo".to_string(), index: 0 };
    assert_eq!(text(divert_filter(&Some(zero))), "inbound and !loopback and ifidx==0 and icmpv6.Type==134");
    let big = NetworkInterface { name: "x".to_string(), index: u32::MAX };
    assert_eq!(
        text(divert_filter(&Some(big))),
        "inbound and !loopback and ifidx==4294967295 and icmpv6.Type==134"
    );
}
