use ipv6_prefix_filter::globals::{add_to_container, set_blacklist_mode, Globals};
use ipv6_prefix_filter::prefix::Ipv6Prefix;
use ipv6_prefix_filter::verdict::{
    decide_verdict, handle_packet, is_in_list, packet_send_count, packet_verdict, verdict_for_prefixes,
    LinuxPacketProcessor, Verdict,
};
use ipv6_prefix_filter::AppState;

const PREFIX_1: u128 = 0x2001_0db8_0001_0000_0000_0000_0000_0000;
const PREFIX_2: u128 = 0x2001_0db8_0002_0000_0000_0000_0000_0000;

fn pio(prefix: u128, prefix_len: u8) -> Vec<u8> {
    let mut o = vec![3u8, 4, prefix_len, 0xc0, 0, 0, 0x0e, 0x10, 0, 0, 0x07, 0x08, 0, 0, 0, 0];
    o.extend_from_slice(&prefix.to_be_bytes());
    o
}

fn packet(icmp_type: u8, options: &[Vec<u8>]) -> Vec<u8> {
    let mut m = vec![icmp_type, 0, 0, 0, 64, 0, 0x07, 0x08, 0, 0, 0, 0, 0, 0, 0, 0];
    for o in options {
        m.extend_from_slice(o);
    }
    let mut p = vec![0x60u8, 0, 0, 0];
    p.extend_from_slice(&(m.len() as u16).to_be_bytes());
    p.extend_from_slice(&[58, 255]);
    p.extend_from_slice(&[0u8; 32]);
    p.extend_from_slice(&m);
    p
}

fn state(blacklist_mode: bool, prefixes: Vec<Ipv6Prefix>) -> AppState {
    AppState { blacklist_mode, prefixes, ..Default::default() }
}

fn net(addr: u128, prefix_len: u8) -> Ipv6Prefix {
    Ipv6Prefix { addr, prefix_len }
}

#[test]
fn default_state() {
    let s = AppState::default();
    assert_eq!(s.queue_num, 0);
    assert!(!s.blacklist_mode);
    assert!(s.prefixes.is_empty());
    assert!(s.interface.is_none());
}

#[test]
fn allow_list_accepts_covered_prefixes() {
    let data = packet(134, &[pio(PREFIX_1, 64)]);
    assert_eq!(packet_verdict(&state(false, vec![net(PREFIX_1, 64)]), &data), Verdict::Accept);
    assert_eq!(packet_verdict(&state(false, vec![net(PREFIX_1, 48)]), &data), Verdict::Accept);
    assert_eq!(packet_verdict(&state(false, vec![net(PREFIX_2, 64)]), &data), Verdict::Drop);
    // a longer list network does not cover the announced one
    assert_eq!(packet_verdict(&state(false, vec![net(PREFIX_1, 80)]), &data), Verdict::Drop);
}

#[test]
fn allow_list_needs_every_prefix_covered() {
    let data = packet(134, &[pio(PREFIX_1, 64), pio(PREFIX_2, 64)]);
    assert_eq!(packet_verdict(&state(false, vec![net(PREFIX_1, 64)]), &data), Verdict::Drop);
    assert_eq!(
        packet_verdict(&state(false, vec![net(PREFIX_1, 64), net(PREFIX_2, 64)]), &data),
        Verdict::Accept
    );
}

#[test]
fn blacklist_drops_listed_prefixes() {
    let data = packet(134, &[pio(PREFIX_1, 64)]);
    assert_eq!(packet_verdict(&state(true, vec![net(PREFIX_1, 64)]), &data), Verdict::Drop);
    assert_eq!(packet_verdict(&state(true, vec![net(PREFIX_2, 64)]), &data), Verdict::Accept);
    let both = packet(134, &[pio(PREFIX_2, 64), pio(PREFIX_1, 64)]);
    assert_eq!(packet_verdict(&state(true, vec![net(PREFIX_1, 64)]), &both), Verdict::Drop);
}

#[test]
fn modes_are_opposite_on_one_prefix() {
    let data = packet(134, &[pio(PREFIX_1, 64)]);
    for list in [vec![net(PREFIX_1, 64)], vec![net(PREFIX_2, 64)]] {
        let a = packet_verdict(&state(false, list.clone()), &data);
        let b = packet_verdict(&state(true, list), &data);
        assert_ne!(a, b);
    }
}

#[test]
fn empty_list() {
    let data = packet(134, &[pio(PREFIX_1, 64)]);
    assert_eq!(packet_verdict(&state(true, vec![]), &data), Verdict::Accept);
    assert_eq!(packet_verdict(&state(false, vec![]), &data), Verdict::Accept);
    let two = packet(134, &[pio(PREFIX_1, 64), pio(PREFIX_2, 64)]);
    assert_eq!(packet_verdict(&state(false, vec![]), &two), Verdict::Accept);
    assert_eq!(verdict_for_prefixes(&vec![], false, &vec![net(PREFIX_1, 64)]), Verdict::Accept);
    let bare = packet(134, &[]);
    assert_eq!(packet_verdict(&state(false, vec![]), &bare), Verdict::Accept);
}

#[test]
fn other_packets_pass() {
    let ns = packet(135, &[pio(PREFIX_1, 64)]);
    assert_eq!(packet_verdict(&state(false, vec![]), &ns), Verdict::Accept);
    assert_eq!(packet_verdict(&state(false, vec![]), &[1, 2, 3]), Verdict::Accept);
}

#[test]
fn longer_list_never_drops_more() {
    let data = packet(134, &[pio(PREFIX_1, 64), pio(PREFIX_2, 64)]);
    let small = vec![net(PREFIX_1, 64), net(PREFIX_2, 64)];
    let mut big = small.clone();
    big.push(net(0, 0));
    assert_eq!(packet_verdict(&state(false, small.clone()), &data), Verdict::Accept);
    assert_eq!(packet_verdict(&state(false, big.clone()), &data), Verdict::Accept);
    assert_eq!(packet_verdict(&state(true, big), &data), Verdict::Drop);
    assert_eq!(packet_verdict(&state(true, vec![]), &data), Verdict::Accept);
}

#[test]
fn list_lookup_and_prefix_verdicts() {
    let list = vec![net(PREFIX_1, 48)];
    assert!(is_in_list(&list, &net(PREFIX_1, 64)));
    assert!(!is_in_list(&list, &net(PREFIX_2, 64)));
    assert_eq!(verdict_for_prefixes(&list, false, &vec![]), Verdict::Accept);
    assert_eq!(verdict_for_prefixes(&list, false, &vec![net(PREFIX_2, 64)]), Verdict::Drop);
}

#[test]
fn decide_verdict_table() {
    assert!(!decide_verdict(false, false));
    assert!(decide_verdict(false, true));
    assert!(decide_verdict(true, false));
    assert!(!decide_verdict(true, true));
}

#[test]
fn every_option_decides_by_exact_address() {
    let mut g = Globals::new();
    add_to_container(&mut g, net(PREFIX_1, 64));
    let first_listed = packet(134, &[pio(PREFIX_1, 64), pio(PREFIX_2, 64)]);
    let first_unlisted = packet(134, &[pio(PREFIX_2, 64), pio(PREFIX_1, 64)]);
    let only_listed = packet(134, &[pio(PREFIX_1, 64), pio(PREFIX_1, 64)]);
    assert_eq!(handle_packet(&g, &first_listed), Verdict::Drop);
    assert_eq!(handle_packet(&g, &first_unlisted), Verdict::Drop);
    assert_eq!(handle_packet(&g, &only_listed), Verdict::Accept);
    // a covered but different address is not on the list
    let covered = packet(134, &[pio(PREFIX_1 | 0x1_0000_0000_0000_0000, 64)]);
    assert_eq!(handle_packet(&g, &covered), Verdict::Drop);
    set_blacklist_mode(&mut g, true);
    assert_eq!(handle_packet(&g, &first_listed), Verdict::Drop);
    assert_eq!(handle_packet(&g, &first_unlisted), Verdict::Drop);
    assert_eq!(handle_packet(&g, &only_listed), Verdict::Drop);
    assert_eq!(handle_packet(&g, &packet(134, &[pio(PREFIX_2, 64)])), Verdict::Accept);
    assert_eq!(handle_packet(&g, &packet(134, &[])), Verdict::Accept);
    assert_eq!(handle_packet(&g, &packet(135, &[pio(PREFIX_1, 64)])), Verdict::Accept);
}

#[test]
fn analyze_packet_reads_advertisements_only() {
    let mut p = LinuxPacketProcessor { filter_mode: true, filter: vec![net(PREFIX_1, 64)] };
    assert_eq!(p.analyze_packet(&packet(134, &[pio(PREFIX_1, 64)])).unwrap(), true);
    assert_eq!(p.analyze_packet(&packet(134, &[pio(PREFIX_2, 64)])).unwrap(), false);
    // a Neighbor Solicitation is no advertisement and passes
    assert_eq!(p.analyze_packet(&packet(135, &[pio(PREFIX_2, 64)])).unwrap(), true);
    assert_eq!(p.analyze_packet(&[0u8; 12]).unwrap(), true);
    // every announced prefix counts, not the first alone
    assert_eq!(p.analyze_packet(&packet(134, &[pio(PREFIX_1, 64), pio(PREFIX_2, 64)])).unwrap(), false);
    assert_eq!(p.analyze_packet(&packet(134, &[pio(PREFIX_1, 64), pio(PREFIX_1, 64)])).unwrap(), true);
    let mut q = LinuxPacketProcessor { filter_mode: false, filter: vec![net(PREFIX_1, 64)] };
    assert_eq!(q.analyze_packet(&packet(134, &[pio(PREFIX_1, 64)])).unwrap(), false);
    assert_eq!(q.analyze_packet(&packet(134, &[pio(PREFIX_2, 64)])).unwrap(), true);
    assert_eq!(q.analyze_packet(&packet(134, &[pio(PREFIX_2, 64), pio(PREFIX_1, 64)])).unwrap(), false);
    // an option whose prefix field is not 16 bytes is passed over
    let mut short = pio(PREFIX_2, 64);
    short.truncate(24);
    short[1] = 3;
    assert_eq!(p.analyze_packet(&packet(134, &[short, pio(PREFIX_1, 64)])).unwrap(), true);
}

#[test]
fn diversion_loop_send_counts() {
    let mut g = Globals::new();
    add_to_container(&mut g, net(PREFIX_1, 64));
    let slla = vec![1u8, 1, 2, 0x11, 0x22, 0x33, 0x44, 0x55];
    assert_eq!(packet_send_count(&g, &[0u8; 20]), 1);
    assert_eq!(packet_send_count(&g, &packet(135, &[pio(PREFIX_1, 64)])), 1);
    assert_eq!(packet_send_count(&g, &packet(134, &[])), 1);
    assert_eq!(packet_send_count(&g, &packet(134, &[slla.clone(), pio(PREFIX_1, 64)])), 1);
    assert_eq!(packet_send_count(&g, &packet(134, &[pio(PREFIX_2, 64)])), 0);
    assert_eq!(packet_send_count(&g, &packet(134, &[pio(PREFIX_1, 64), pio(PREFIX_1, 64)])), 1);
    set_blacklist_mode(&mut g, true);
    assert_eq!(packet_send_count(&g, &packet(134, &[slla.clone(), pio(PREFIX_2, 64), pio(PREFIX_1, 64)])), 0);
    assert_eq!(packet_send_count(&g, &packet(134, &[slla, pio(PREFIX_2, 64)])), 1);
}
