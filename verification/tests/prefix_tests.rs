use ipv6_prefix_filter::bytes::{be_u128_at, be_u32_at};
use ipv6_prefix_filter::prefix::Ipv6Prefix;

fn net(addr: u128, prefix_len: u8) -> Ipv6Prefix {
    Ipv6Prefix::new(addr, prefix_len).unwrap()
}

#[test]
fn new_refuses_long_prefix_lengths() {
    assert_eq!(Ipv6Prefix::new(1, 128), Some(Ipv6Prefix { addr: 1, prefix_len: 128 }));
    assert_eq!(Ipv6Prefix::new(1, 129), None);
    assert_eq!(Ipv6Prefix::new(0, 255), None);
}

#[test]
fn network_and_broadcast_addresses() {
    let p = net(0x2001_0db8_0001_0000_0000_0000_0000_1234, 64);
    assert_eq!(p.network_addr(), 0x2001_0db8_0001_0000_0000_0000_0000_0000);
    assert_eq!(p.broadcast_addr(), 0x2001_0db8_0001_0000_ffff_ffff_ffff_ffff);
    let all = net(0x1234, 0);
    assert_eq!(all.network_addr(), 0);
    assert_eq!(all.broadcast_addr(), u128::MAX);
    let one = net(0x1234, 128);
    assert_eq!(one.network_addr(), 0x1234);
    assert_eq!(one.broadcast_addr(), 0x1234);
    let odd = net(u128::MAX, 1);
    assert_eq!(odd.network_addr(), 1u128 << 127);
    assert_eq!(odd.broadcast_addr(), u128::MAX);
}

#[test]
fn containment() {
    let wide = net(0x2001_0db8_0000_0000_0000_0000_0000_0000, 32);
    let narrow = net(0x2001_0db8_0001_0000_0000_0000_0000_0000, 48);
    let elsewhere = net(0x2001_0db9_0000_0000_0000_0000_0000_0000, 48);
    assert!(wide.contains(&narrow));
    assert!(!narrow.contains(&wide));
    assert!(!wide.contains(&elsewhere));
    assert!(wide.contains(&wide));
    assert!(net(5, 0).contains(&elsewhere));
    // host bits of the outer network do not matter
    assert!(net(0x2001_0db8_ffff_0000_0000_0000_0000_0001, 32).contains(&narrow));
}

#[test]
fn trunc_clears_host_bits_and_is_idempotent() {
    let p = net(0x2001_0db8_0001_0000_0000_0000_0000_1234, 64);
    let t = p.trunc();
    assert_eq!(t, Ipv6Prefix { addr: 0x2001_0db8_0001_0000_0000_0000_0000_0000, prefix_len: 64 });
    assert_eq!(t.trunc(), t);
    assert!(t.contains(&p) && p.contains(&t));
}

#[test]
fn containment_is_transitive_on_examples() {
    let a = net(0x2001_0000_0000_0000_0000_0000_0000_0000, 16);
    let b = net(0x2001_0db8_0000_0000_0000_0000_0000_0000, 32);
    let c = net(0x2001_0db8_0001_0000_0000_0000_0000_0000, 64);
    assert!(a.contains(&b) && b.contains(&c) && a.contains(&c));
}

#[test]
fn big_endian_reads() {
    let bytes: Vec<u8> = (0u8..20).collect();
    assert_eq!(be_u128_at(&bytes, 0), 0x0001_0203_0405_0607_0809_0a0b_0c0d_0e0f);
    assert_eq!(be_u128_at(&bytes, 4), 0x0405_0607_0809_0a0b_0c0d_0e0f_1011_1213);
    assert_eq!(be_u32_at(&bytes, 16), 0x1011_1213);
    assert_eq!(be_u32_at(&[0xff, 0xff, 0xff, 0xff], 0), u32::MAX);
}
