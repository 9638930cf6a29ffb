use ipv6_prefix_filter::globals::{
    add_to_container, clear_container, clear_interface_name, clear_lan_ipv6_addresses_list,
    find_interface, get_all_lan_ipv6_addresses, get_blacklist_mode, get_container_data,
    get_interface_name, get_lan_ipv6_addresses, mac_key, remove_lan_ipv6_address,
    set_blacklist_mode, set_interface_name, set_lan_ipv6_address, Globals, QUEUE_NUM,
};
use ipv6_prefix_filter::handle::{get_prefix, handle_clear, handle_end};
use ipv6_prefix_filter::nft::NftCommand;
use ipv6_prefix_filter::prefix::Ipv6Prefix;
use ipv6_prefix_filter::NetworkInterface;

fn net(addr: u128, prefix_len: u8) -> Ipv6Prefix {
    Ipv6Prefix { addr, prefix_len }
}

fn iface(name: &str, index: u32) -> NetworkInterface {
    NetworkInterface { name: name.to_string(), index }
}

#[test]
fn container_stores_truncated_networks() {
    let mut g = Globals::new();
    assert!(get_container_data(&g).is_empty());
    add_to_container(&mut g, net(0x2001_0db8_0000_0000_0000_0000_0000_00ff, 32));
    add_to_container(&mut g, net(7, 128));
    assert_eq!(
        get_container_data(&g),
        vec![net(0x2001_0db8_0000_0000_0000_0000_0000_0000, 32), net(7, 128)]
    );
    clear_container(&mut g);
    assert!(get_container_data(&g).is_empty());
}

#[test]
fn blacklist_mode_flag() {
    let mut g = Globals::new();
    assert!(!get_blacklist_mode(&g));
    set_blacklist_mode(&mut g, true);
    assert!(get_blacklist_mode(&g));
    assert_eq!(QUEUE_NUM, 0);
}

#[test]
fn interface_binding() {
    let mut g = Globals::new();
    assert!(get_interface_name(&g).is_none());
    let list = vec![iface("lo", 1), iface("eth0", 2), iface("eth0", 3)];
    assert_eq!(find_interface(&list, &"eth0".to_string()), Some(1));
    assert_eq!(find_interface(&list, &"wlan0".to_string()), None);
    set_interface_name(&mut g, &list, &"eth0".to_string());
    let bound = get_interface_name(&g).unwrap();
    assert_eq!((bound.name.as_str(), bound.index), ("eth0", 2));
    clear_interface_name(&mut g);
    assert!(get_interface_name(&g).is_none());
}

#[test]
fn neighbours_read_back_what_was_written() {
    let mut g = Globals::new();
    let a = mac_key([0x02, 0, 0, 0, 0, 0x0a]);
    let b = mac_key([0x02, 0, 0, 0, 0, 0x0b]);
    assert!(get_lan_ipv6_addresses(&g, a).is_none());
    set_lan_ipv6_address(&mut g, b, net(2, 64));
    set_lan_ipv6_address(&mut g, a, net(1, 64));
    set_lan_ipv6_address(&mut g, b, net(3, 64));
    assert_eq!(get_lan_ipv6_addresses(&g, a), Some(vec![net(1, 64)]));
    assert_eq!(get_lan_ipv6_addresses(&g, b), Some(vec![net(2, 64), net(3, 64)]));
    // all networks, neighbour after neighbour in order of address
    assert_eq!(get_all_lan_ipv6_addresses(&g), vec![net(1, 64), net(2, 64), net(3, 64)]);
    remove_lan_ipv6_address(&mut g, b);
    assert!(get_lan_ipv6_addresses(&g, b).is_none());
    assert_eq!(get_all_lan_ipv6_addresses(&g), vec![net(1, 64)]);
    remove_lan_ipv6_address(&mut g, b);
    assert_eq!(get_lan_ipv6_addresses(&g, a), Some(vec![net(1, 64)]));
    clear_lan_ipv6_addresses_list(&mut g);
    assert!(get_all_lan_ipv6_addresses(&g).is_empty());
    assert!(get_lan_ipv6_addresses(&g, a).is_none());
}

#[test]
fn mac_keys_follow_byte_order() {
    assert_eq!(mac_key([0, 0, 0, 0, 0, 1]), 1);
    assert_eq!(mac_key([0x12, 0x34, 0x56, 0x78, 0x9a, 0xbc]), 0x1234_5678_9abc);
    assert!(mac_key([0x01, 0xff, 0xff, 0xff, 0xff, 0xff]) < mac_key([0x02, 0, 0, 0, 0, 0]));
}

#[test]
fn command_line_address_is_recorded() {
    let mut g = Globals::new();
    let octets = 0x2001_0db8_0000_0000_0000_0000_0000_0001u128.to_be_bytes();
    assert_eq!(get_prefix(&mut g, octets), octets);
    assert_eq!(get_container_data(&g), vec![net(0x2001_0db8_0000_0000_0000_0000_0000_0001, 128)]);
}

fn is_table_delete(c: &NftCommand) -> bool {
    match c {
        NftCommand::Delete(ipv6_prefix_filter::nft::NftObject::Table(t)) => t.name == "rafilter",
        _ => false,
    }
}

#[test]
fn end_of_run_resets_state() {
    let mut g = Globals::new();
    add_to_container(&mut g, net(1, 64));
    set_interface_name(&mut g, &vec![iface("eth0", 2)], &"eth0".to_string());
    set_lan_ipv6_address(&mut g, 5, net(9, 64));
    let clear = handle_clear();
    assert_eq!(clear.len(), 1);
    assert!(is_table_delete(&clear[0]));
    assert_eq!(get_container_data(&g).len(), 1);
    assert!(get_interface_name(&g).is_some());
    handle_end(&mut g);
    assert!(get_container_data(&g).is_empty());
    assert!(get_interface_name(&g).is_none());
    assert_eq!(get_all_lan_ipv6_addresses(&g), vec![net(9, 64)]);
}
