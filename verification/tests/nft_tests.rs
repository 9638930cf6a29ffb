use ipv6_prefix_filter::nft::{
    apply_nftables_action, create_nftables_objects, delete_nftables, setup_nftables, LinuxFilter,
    NfChainPolicy, NfChainType, NfFamily, NfHook, NftCommand, NftObject, NftStatement,
};
use ipv6_prefix_filter::{AppState, NetworkInterface};

fn check_ruleset(objs: &[NftObject], queue: u32, iface: Option<&str>) {
    assert_eq!(objs.len(), 3);
    match &objs[0] {
        NftObject::Table(t) => {
            assert_eq!(t.family, NfFamily::IP6);
            assert_eq!(t.name, "rafilter");
        }
        _ => panic!("first object is not a table"),
    }
    match &objs[1] {
        NftObject::Chain(c) => {
            assert_eq!((c.table.as_str(), c.name.as_str()), ("rafilter", "input"));
            assert_eq!(c.chain_type, NfChainType::Filter);
            assert_eq!(c.hook, NfHook::Input);
            assert_eq!(c.prio, 0);
            assert_eq!(c.policy, NfChainPolicy::Accept);
        }
        _ => panic!("second object is not a chain"),
    }
    match &objs[2] {
        NftObject::Rule(r) => {
            assert_eq!((r.table.as_str(), r.chain.as_str()), ("rafilter", "input"));
            assert_eq!(r.comment, "Queue ICMPv6 Router Advertisement packets");
            let mut k = 0;
            if let Some(name) = iface {
                assert_eq!(r.expr.len(), 3);
                match &r.expr[0] {
                    NftStatement::MatchIifname(n) => assert_eq!(n, name),
                    _ => panic!("no interface match"),
                }
                k = 1;
            } else {
                assert_eq!(r.expr.len(), 2);
            }
            match &r.expr[k] {
                NftStatement::MatchPayload { protocol, field, value } => {
                    assert_eq!((protocol.as_str(), field.as_str(), *value), ("icmpv6", "type", 134));
                }
                _ => panic!("no type match"),
            }
            match &r.expr[k + 1] {
                NftStatement::Queue(q) => assert_eq!(*q, queue),
                _ => panic!("no queue"),
            }
        }
        _ => panic!("third object is not a rule"),
    }
}

fn added(cmds: Vec<NftCommand>) -> Vec<NftObject> {
    cmds.into_iter()
        .map(|c| match c {
            NftCommand::Add(o) => o,
            NftCommand::Delete(_) => panic!("unexpected delete"),
        })
        .collect()
}

#[test]
fn ruleset_without_interface() {
    check_ruleset(&create_nftables_objects(0, None), 0, None);
    check_ruleset(&create_nftables_objects(7, None), 7, None);
}

#[test]
fn ruleset_with_interface() {
    check_ruleset(&create_nftables_objects(3, Some("eth0".to_string())), 3, Some("eth0"));
}

#[test]
fn setup_adds_the_state_ruleset() {
    let state = AppState {
        queue_num: 5,
        interface: Some(NetworkInterface { name: "eth1".to_string(), index: 4 }),
        ..Default::default()
    };
    check_ruleset(&added(setup_nftables(&state)), 5, Some("eth1"));
    check_ruleset(&added(setup_nftables(&AppState::default())), 0, None);
}

#[test]
fn delete_removes_the_table() {
    let cmds = delete_nftables();
    assert_eq!(cmds.len(), 1);
    match &cmds[0] {
        NftCommand::Delete(NftObject::Table(t)) => {
            assert_eq!(t.name, "rafilter");
            assert_eq!(t.family, NfFamily::IP6);
        }
        _ => panic!("not a table deletion"),
    }
}

#[test]
fn legacy_action_adds_or_deletes_everything() {
    check_ruleset(&added(apply_nftables_action(1)), 0, None);
    let deleted: Vec<NftObject> = apply_nftables_action(0)
        .into_iter()
        .map(|c| match c {
            NftCommand::Delete(o) => o,
            NftCommand::Add(_) => panic!("unexpected add"),
        })
        .collect();
    check_ruleset(&deleted, 0, None);
}

#[test]
fn linux_filter_batches() {
    let f = LinuxFilter::new(2, Some(NetworkInterface { name: "eth0".to_string(), index: 2 }));
    assert_eq!(f.queue_num, 2);
    check_ruleset(&f.ruleset, 2, Some("eth0"));
    check_ruleset(&added(f.init_commands()), 2, Some("eth0"));
    let down = f.cleanup_commands();
    assert_eq!(down.len(), 1);
    match &down[0] {
        NftCommand::Delete(NftObject::Table(t)) => assert_eq!(t.name, "rafilter"),
        _ => panic!("not a table deletion"),
    }
}
