//! The filter's shared state: the list of networks, the mode, the interface
//! and the IPv6 networks seen per neighbour (by MAC address).
use std::collections::BTreeMap;
use vstd::laws_cmp::obeys_cmp;
use vstd::prelude::*;
use vstd::std_specs::btree::increasing_seq;
use vstd::std_specs::cmp::OrdSpec;
use vstd::std_specs::iter::IteratorSpec;

use crate::bytes::{be_value, lemma_be_value_bound};
use crate::prefix::{contains, lemma_trunc_same_network, truncated, Ipv6Prefix};
use crate::{all_wf, NetworkInterface};

verus! {

/// The netfilter queue that the filter reads.
pub const QUEUE_NUM: u16 = 0;

/// The keys run in strictly increasing order (so none occurs twice).
pub open spec fn keys_increasing(keys: Seq<u64>) -> bool {
    forall|i: int, j: int| 0 <= i < j < keys.len() ==> keys[i] < keys[j]
}

/// The MAC addresses of the neighbour table in increasing order.
pub open spec fn lan_keys(dom: Set<u64>) -> Seq<u64> {
    choose|keys: Seq<u64>| keys_increasing(keys) && keys.to_set() == dom
}

/// The networks filed under `keys`, neighbour after neighbour in the order of `keys`.
pub open spec fn lan_flatten(m: Map<u64, Seq<Ipv6Prefix>>, keys: Seq<u64>) -> Seq<Ipv6Prefix>
    decreases keys.len(),
{
    if keys.len() == 0 {
        seq![]
    } else {
        lan_flatten(m, keys.drop_last()) + m[keys.last()]
    }
}

/// The networks of every neighbour, in increasing order of MAC address.
pub open spec fn all_lan_networks(m: Map<u64, Seq<Ipv6Prefix>>) -> Seq<Ipv6Prefix> {
    lan_flatten(m, lan_keys(m.dom()))
}

/// The networks seen for `mac` before a network is added for it.
pub open spec fn lan_networks_or_empty(m: Map<u64, Seq<Ipv6Prefix>>, mac: u64) -> Seq<Ipv6Prefix> {
    if m.contains_key(mac) {
        m[mac]
    } else {
        seq![]
    }
}

/// A sequence that the map's order calls increasing is increasing by `<`.
proof fn lemma_increasing_keys(keys: Seq<u64>)
    requires
        increasing_seq(keys),
    ensures
        keys_increasing(keys),
{
    assert(obeys_cmp::<u64>());
    assert forall|i: int, j: int| 0 <= i < j < keys.len() implies keys[i] < keys[j] by {
        assert(keys[i].cmp_spec(&keys[j]) is Less);
    }
}

/// Two increasing sequences of the same keys are one sequence.
pub proof fn lemma_increasing_keys_unique(a: Seq<u64>, b: Seq<u64>)
    requires
        keys_increasing(a),
        keys_increasing(b),
        a.to_set() == b.to_set(),
    ensures
        a == b,
    decreases a.len(),
{
    if a.len() == 0 {
        if b.len() > 0 {
            assert(b.to_set().contains(b[0]));
        }
        assert(a =~= b);
    } else {
        assert(a.to_set().contains(a[0]));
        assert(b.len() > 0);
        assert(b.to_set().contains(b[0]));
        let j = choose|j: int| 0 <= j < b.len() && b[j] == a[0];
        let i = choose|i: int| 0 <= i < a.len() && a[i] == b[0];
        assert(a[0] == b[0]) by {
            if i > 0 {
                assert(a[0] < a[i]);
            }
            if j > 0 {
                assert(b[0] < b[j]);
            }
        }
        let a1 = a.drop_first();
        let b1 = b.drop_first();
        assert forall|x: u64| a1.to_set().contains(x) <==> b1.to_set().contains(x) by {
            if a1.to_set().contains(x) {
                let k = choose|k: int| 0 <= k < a1.len() && a1[k] == x;
                assert(a[k + 1] == x);
                assert(a[0] < x);
                assert(a.to_set().contains(x));
                let m = choose|m: int| 0 <= m < b.len() && b[m] == x;
                assert(m > 0);
                assert(b1[m - 1] == x);
            }
            if b1.to_set().contains(x) {
                let k = choose|k: int| 0 <= k < b1.len() && b1[k] == x;
                assert(b[k + 1] == x);
                assert(b[0] < x);
                assert(b.to_set().contains(x));
                let m = choose|m: int| 0 <= m < a.len() && a[m] == x;
                assert(m > 0);
                assert(a1[m - 1] == x);
            }
        }
        assert(a1.to_set() =~= b1.to_set());
        lemma_increasing_keys_unique(a1, b1);
        assert forall|i: int| 0 <= i < a.len() implies a[i] == b[i] by {
            if i > 0 {
                assert(a[i] == a1[i - 1] && b[i] == b1[i - 1]);
            }
        }
        assert(a =~= b);
    }
}

/// Where an increasing sequence of the keys exists, `lan_keys` is that sequence.
pub proof fn lemma_lan_keys_is(keys: Seq<u64>, dom: Set<u64>)
    requires
        keys_increasing(keys),
        keys.to_set() == dom,
    ensures
        lan_keys(dom) == keys,
{
    let k = lan_keys(dom);
    assert(keys_increasing(k) && k.to_set() == dom);
    lemma_increasing_keys_unique(k, keys);
}

/// The filter's shared state.
#[derive(Debug)]
pub struct Globals {
    blacklist_mode: bool,
    container: Vec<Ipv6Prefix>,
    interface_name: Option<NetworkInterface>,
    lan: BTreeMap<u64, Vec<Ipv6Prefix>>,
}

impl Globals {
    /// Blacklist mode: the networks of the list are blocked rather than allowed.
    pub closed spec fn blacklist(&self) -> bool {
        self.blacklist_mode
    }

    /// The list of networks.
    pub closed spec fn container(&self) -> Seq<Ipv6Prefix> {
        self.container@
    }

    /// The interface the filter is bound to, if any.
    pub closed spec fn interface(&self) -> Option<NetworkInterface> {
        self.interface_name
    }

    /// The neighbour table: the networks seen per MAC address.
    pub closed spec fn lan(&self) -> Map<u64, Seq<Ipv6Prefix>> {
        self.lan@.map_values(|v: Vec<Ipv6Prefix>| v@)
    }

    /// The networks of the list have valid prefix lengths.
    pub open spec fn wf(&self) -> bool {
        all_wf(self.container())
    }

    /// Empty state: allow-list mode, no networks, no interface, no neighbours.
    pub fn new() -> (r: Globals)
        ensures
            r.wf(),
            !r.blacklist(),
            r.container() == Seq::<Ipv6Prefix>::empty(),
            r.interface() is None,
            r.lan() == Map::<u64, Seq<Ipv6Prefix>>::empty(),
    {
        let r = Globals {
            blacklist_mode: false,
            container: Vec::new(),
            interface_name: None,
            lan: BTreeMap::new(),
        };
        assert(r.lan() =~= Map::<u64, Seq<Ipv6Prefix>>::empty());
        r
    }
}

/// Whether the state is in blacklist mode.
pub fn get_blacklist_mode(g: &Globals) -> (r: bool)
    ensures
        r == g.blacklist(),
{
    g.blacklist_mode
}

/// Sets or clears blacklist mode.
pub fn set_blacklist_mode(g: &mut Globals, blacklist_mode: bool)
    requires
        old(g).wf(),
    ensures
        final(g).wf(),
        final(g).blacklist() == blacklist_mode,
        final(g).container() == old(g).container(),
        final(g).interface() == old(g).interface(),
        final(g).lan() == old(g).lan(),
{
    g.blacklist_mode = blacklist_mode;
}

/// Adds a network to the list, truncated to its network address.
pub fn add_to_container(g: &mut Globals, ip: Ipv6Prefix)
    requires
        old(g).wf(),
        ip.wf(),
    ensures
        final(g).wf(),
        final(g).container() == old(g).container().push(truncated(ip)),
        final(g).interface() == old(g).interface(),
        final(g).lan() == old(g).lan(),
        final(g).blacklist() == old(g).blacklist(),
{
    let t = ip.trunc();
    g.container.push(t);
}

/// The networks of the list.
pub fn get_container_data(g: &Globals) -> (r: Vec<Ipv6Prefix>)
    ensures
        r@ == g.container(),
{
    let n = g.container.len();
    let mut r: Vec<Ipv6Prefix> = Vec::new();
    let mut i: usize = 0;
    while i < n
        invariant
            i <= n,
            n == g.container@.len(),
            r@ == g.container@.take(i as int),
        decreases n - i,
    {
        r.push(g.container[i]);
        i = i + 1;
        assert(r@ =~= g.container@.take(i as int));
    }
    assert(g.container@.take(n as int) == g.container@);
    r
}

/// Empties the list of networks.
pub fn clear_container(g: &mut Globals)
    requires
        old(g).wf(),
    ensures
        final(g).wf(),
        final(g).container() == Seq::<Ipv6Prefix>::empty(),
        final(g).interface() == old(g).interface(),
        final(g).lan() == old(g).lan(),
        final(g).blacklist() == old(g).blacklist(),
{
    g.container.clear();
}

/// The index of the first interface of the list with the given name.
pub fn find_interface(interfaces: &Vec<NetworkInterface>, name: &String) -> (r: Option<usize>)
    ensures
        match r {
            Some(i) => {
                &&& i < interfaces@.len()
                &&& interfaces@[i as int].name@ == name@
                &&& forall|j: int| 0 <= j < i ==> interfaces@[j].name@ != name@
            },
            None => forall|j: int| 0 <= j < interfaces@.len() ==> interfaces@[j].name@ != name@,
        },
{
    let mut i: usize = 0;
    while i < interfaces.len()
        invariant
            i <= interfaces@.len(),
            forall|j: int| 0 <= j < i ==> interfaces@[j].name@ != name@,
        decreases interfaces.len() - i,
    {
        if interfaces[i].name == *name {
            return Some(i);
        }
        i = i + 1;
    }
    None
}

/// Binds the state to the first interface of `interfaces` named `input_interface_name`
/// (the caller hands in the system's interfaces; one of them must have that name).
pub fn set_interface_name(g: &mut Globals, interfaces: &Vec<NetworkInterface>, input_interface_name: &String)
    requires
        old(g).wf(),
        exists|j: int| 0 <= j < interfaces@.len() && interfaces@[j].name@ == input_interface_name@,
    ensures
        final(g).wf(),
        exists|i: int| #![auto] 0 <= i < interfaces@.len()
            && interfaces@[i].name@ == input_interface_name@
            && (forall|j: int| 0 <= j < i ==> interfaces@[j].name@ != input_interface_name@)
            && final(g).interface() == Some(interfaces@[i]),
        final(g).container() == old(g).container(),
        final(g).lan() == old(g).lan(),
        final(g).blacklist() == old(g).blacklist(),
{
    match find_interface(interfaces, input_interface_name) {
        Some(i) => {
            g.interface_name = Some(interfaces[i].duplicate());
        },
        None => {},
    }
}

/// The interface the state is bound to, if any.
pub fn get_interface_name(g: &Globals) -> (r: Option<NetworkInterface>)
    ensures
        r == g.interface(),
{
    match &g.interface_name {
        Some(i) => Some(i.duplicate()),
        None => None,
    }
}

/// Unbinds the state from its interface.
pub fn clear_interface_name(g: &mut Globals)
    requires
        old(g).wf(),
    ensures
        final(g).wf(),
        final(g).interface() is None,
        final(g).container() == old(g).container(),
        final(g).lan() == old(g).lan(),
        final(g).blacklist() == old(g).blacklist(),
{
    g.interface_name = None;
}

/// Forgets every neighbour.
pub fn clear_lan_ipv6_addresses_list(g: &mut Globals)
    requires
        old(g).wf(),
    ensures
        final(g).wf(),
        final(g).lan() == Map::<u64, Seq<Ipv6Prefix>>::empty(),
        final(g).container() == old(g).container(),
        final(g).interface() == old(g).interface(),
        final(g).blacklist() == old(g).blacklist(),
{
    g.lan.clear();
    assert(g.lan() =~= Map::<u64, Seq<Ipv6Prefix>>::empty());
}

/// A copy of a list of networks.
fn copy_networks(v: &Vec<Ipv6Prefix>) -> (r: Vec<Ipv6Prefix>)
    ensures
        r@ == v@,
{
    let n = v.len();
    let mut r: Vec<Ipv6Prefix> = Vec::new();
    let mut i: usize = 0;
    while i < n
        invariant
            i <= n,
            n == v@.len(),
            r@ == v@.take(i as int),
        decreases n - i,
    {
        r.push(v[i]);
        i = i + 1;
        assert(r@ =~= v@.take(i as int));
    }
    assert(v@.take(n as int) == v@);
    r
}

/// Adds a network to those seen for the neighbour `mac` (creating its entry if it
/// has none).
pub fn set_lan_ipv6_address(g: &mut Globals, mac: u64, ipv6_network: Ipv6Prefix)
    requires
        old(g).wf(),
    ensures
        final(g).wf(),
        final(g).lan() == old(g).lan().insert(
            mac,
            lan_networks_or_empty(old(g).lan(), mac).push(ipv6_network),
        ),
        final(g).container() == old(g).container(),
        final(g).interface() == old(g).interface(),
        final(g).blacklist() == old(g).blacklist(),
{
    let ghost before = g.lan@;
    let mut networks = match g.lan.remove(&mac) {
        Some(v) => v,
        None => Vec::new(),
    };
    assert(networks@ == lan_networks_or_empty(old(g).lan(), mac));
    networks.push(ipv6_network);
    let ghost pushed = networks@;
    g.lan.insert(mac, networks);
    assert(g.lan@ == before.remove(mac).insert(mac, g.lan@[mac]));
    assert(g.lan() =~= old(g).lan().insert(mac, pushed));
}

/// The networks seen for the neighbour `mac`; `None` when it has no entry.
pub fn get_lan_ipv6_addresses(g: &Globals, mac: u64) -> (r: Option<Vec<Ipv6Prefix>>)
    requires
        g.wf(),
    ensures
        match r {
            Some(v) => g.lan().contains_key(mac) && v@ == g.lan()[mac],
            None => !g.lan().contains_key(mac),
        },
{
    match g.lan.get(&mac) {
        Some(v) => Some(copy_networks(v)),
        None => None,
    }
}

/// The networks of every neighbour, neighbour after neighbour in increasing order
/// of MAC address.
pub fn get_all_lan_ipv6_addresses(g: &Globals) -> (r: Vec<Ipv6Prefix>)
    ensures
        keys_increasing(lan_keys(g.lan().dom())),
        lan_keys(g.lan().dom()).to_set() == g.lan().dom(),
        r@ == all_lan_networks(g.lan()),
{
    let ghost m = g.lan@;
    let ghost lan = g.lan();
    let mut r: Vec<Ipv6Prefix> = Vec::new();
    let values = g.lan.values();
    let ghost keys = choose|key_seq: Seq<u64>|
        {
            &&& increasing_seq(key_seq)
            &&& key_seq.to_set() == m.dom()
            &&& key_seq.no_duplicates()
            &&& IteratorSpec::remaining(&values) == key_seq.map(|i: int, k: u64| &m[k])
        };
    proof {
        lemma_increasing_keys(keys);
        assert(lan.dom() =~= m.dom());
        lemma_lan_keys_is(keys, lan.dom());
    }
    for nets in it: values
        invariant
            keys.to_set() == m.dom(),
            lan == m.map_values(|v: Vec<Ipv6Prefix>| v@),
            it.seq() == keys.map(|i: int, k: u64| &m[k]),
            r@ == lan_flatten(lan, keys.take(it.index())),
    {
        let ghost before = r@;
        let n = nets.len();
        let mut k: usize = 0;
        while k < n
            invariant
                k <= n,
                n == nets@.len(),
                r@ == before + nets@.take(k as int),
            decreases n - k,
        {
            r.push(nets[k]);
            k = k + 1;
            assert(r@ =~= before + nets@.take(k as int));
        }
        assert(nets@.take(n as int) == nets@);
        assert(keys.take(it.index() + 1).drop_last() == keys.take(it.index()));
        assert(m.dom().contains(keys[it.index()])) by {
            assert(keys.to_set().contains(keys[it.index()]));
        }
    }
    assert(keys.take(keys.len() as int) == keys);
    r
}

/// Forgets the neighbour `mac` and its networks.
pub fn remove_lan_ipv6_address(g: &mut Globals, mac: u64)
    requires
        old(g).wf(),
    ensures
        final(g).wf(),
        final(g).lan() == old(g).lan().remove(mac),
        final(g).container() == old(g).container(),
        final(g).interface() == old(g).interface(),
        final(g).blacklist() == old(g).blacklist(),
{
    let _ = g.lan.remove(&mac);
    assert(g.lan() =~= old(g).lan().remove(mac));
}

/// The 6 bytes of a MAC address as one big-endian number (the key under which the
/// state files a neighbour; its order is the order of the bytes).
pub fn mac_key(octets: [u8; 6]) -> (r: u64)
    ensures
        r == be_value(octets@),
{
    let ghost s = octets@;
    let mut acc: u64 = 0;
    let mut j: usize = 0;
    while j < 6
        invariant
            j <= 6,
            s == octets@,
            s.len() == 6,
            acc == be_value(s.take(j as int)),
        decreases 6 - j,
    {
        proof {
            assert(s.take(j + 1).drop_last() == s.take(j as int));
            lemma_be_value_bound(s.take(j as int));
            crate::bytes::lemma_pow2_values();
            vstd::arithmetic::power2::lemma2_to64();
            vstd::arithmetic::power2::lemma2_to64_rest();
            if j < 5 {
                vstd::arithmetic::power2::lemma_pow2_strictly_increases((8 * j) as nat, 40);
            }
            let a = acc as int;
            assert(a * 256 + 255 < 0x1_0000_0000_0000_0000) by (nonlinear_arith)
                requires a < 0x100_0000_0000;
        }
        acc = acc * 256 + octets[j] as u64;
        j = j + 1;
    }
    assert(s.take(6) == s);
    acc
}

/// After a network is added to the list, the list reads back with it last, truncated
/// to its network address, which covers the same addresses as the network added.
pub proof fn lemma_container_read_after_add(before: Seq<Ipv6Prefix>, after: Seq<Ipv6Prefix>, ip: Ipv6Prefix)
    requires
        ip.wf(),
        after == before.push(truncated(ip)),
    ensures
        after.len() == before.len() + 1,
        after.subrange(0, before.len() as int) == before,
        contains(after.last(), ip),
        contains(ip, after.last()),
{
    lemma_trunc_same_network(ip);
    assert(after.subrange(0, before.len() as int) =~= before);
}

/// Reading a neighbour after a network was added for it gives its earlier networks

/// Reading a neighbour after a network was added for it gives its earlier networks
/// (none, if it had no entry) followed by the new one; every other neighbour reads
/// as before.
pub proof fn lemma_lan_read_after_set(
    before: Map<u64, Seq<Ipv6Prefix>>,
    after: Map<u64, Seq<Ipv6Prefix>>,
    mac: u64,
    network: Ipv6Prefix,
    other: u64,
)
    requires
        after == before.insert(mac, lan_networks_or_empty(before, mac).push(network)),
    ensures
        after.contains_key(mac),
        after[mac] == lan_networks_or_empty(before, mac).push(network),
        after[mac].last() == network,
        other != mac ==> (after.contains_key(other) == before.contains_key(other)),
        other != mac && before.contains_key(other) ==> after[other] == before[other],
{
}

/// After a neighbour is removed it has no entry; every other neighbour reads as before.
pub proof fn lemma_lan_read_after_remove(
    before: Map<u64, Seq<Ipv6Prefix>>,
    after: Map<u64, Seq<Ipv6Prefix>>,
    mac: u64,
    other: u64,
)
    requires
        after == before.remove(mac),
    ensures
        !after.contains_key(mac),
        other != mac ==> (after.contains_key(other) == before.contains_key(other)),
        other != mac && before.contains_key(other) ==> after[other] == before[other],
{
}

/// The networks of all neighbours, read along the neighbours' addresses, are
/// exactly those filed under some neighbour.
pub proof fn lemma_lan_flatten_members(m: Map<u64, Seq<Ipv6Prefix>>, keys: Seq<u64>, x: Ipv6Prefix)
    requires
        keys.to_set() == m.dom(),
        keys.no_duplicates(),
    ensures
        lan_flatten(m, keys).contains(x) <==> exists|mac: u64| #[trigger] m.contains_key(mac) && m[mac].contains(x),
    decreases keys.len(),
{
    if keys.len() == 0 {
        if exists|mac: u64| #[trigger] m.contains_key(mac) && m[mac].contains(x) {
            let mac = choose|mac: u64| #[trigger] m.contains_key(mac) && m[mac].contains(x);
            assert(keys.to_set().contains(mac));
        }
    } else {
        let init = keys.drop_last();
        let last = keys.last();
        let n = keys.len() - 1;
        let m1 = m.remove(last);
        assert(init.to_set() =~= m1.dom()) by {
            assert forall|k: u64| init.to_set().contains(k) <==> m1.dom().contains(k) by {
                if init.to_set().contains(k) {
                    let i = choose|i: int| 0 <= i < init.len() && init[i] == k;
                    assert(keys[i] == k);
                    assert(keys.to_set().contains(k));
                    assert(k != last);
                }
                if m1.dom().contains(k) {
                    assert(keys.to_set().contains(k));
                    let i = choose|i: int| 0 <= i < keys.len() && keys[i] == k;
                    assert(i != n);
                    assert(init[i] == k);
                }
            }
        }
        assert(init.no_duplicates());
        lemma_lan_flatten_members(m1, init, x);
        assert(keys.to_set().contains(last));
        assert(lan_flatten(m1, init) == lan_flatten(m, init)) by {
            lemma_lan_flatten_frame(m, m1, init);
        }
        let a = lan_flatten(m, init);
        let b = m[last];
        assert(lan_flatten(m, keys) == a + b);
        if (a + b).contains(x) {
            let k = choose|k: int| 0 <= k < (a + b).len() && (a + b)[k] == x;
            if k < a.len() {
                assert(a[k] == x);
                assert(a.contains(x));
                let mac = choose|mac: u64| #[trigger] m1.contains_key(mac) && m1[mac].contains(x);
                assert(m.contains_key(mac) && m[mac].contains(x));
            } else {
                assert(b[k - a.len()] == x);
                assert(m.contains_key(last) && m[last].contains(x));
            }
        }
        if exists|mac: u64| #[trigger] m.contains_key(mac) && m[mac].contains(x) {
            let mac = choose|mac: u64| #[trigger] m.contains_key(mac) && m[mac].contains(x);
            if mac == last {
                let k = choose|k: int| 0 <= k < b.len() && b[k] == x;
                assert((a + b)[a.len() + k] == x);
            } else {
                assert(m1.contains_key(mac) && m1[mac].contains(x));
                let k = choose|k: int| 0 <= k < a.len() && a[k] == x;
                assert((a + b)[k] == x);
            }
        }
    }
}

/// Flattening along keys reads only the entries of those keys.
proof fn lemma_lan_flatten_frame(m: Map<u64, Seq<Ipv6Prefix>>, m1: Map<u64, Seq<Ipv6Prefix>>, keys: Seq<u64>)
    requires
        forall|i: int| 0 <= i < keys.len() ==> m1.contains_key(#[trigger] keys[i]) && m1[keys[i]] == m[keys[i]],
    ensures
        lan_flatten(m1, keys) == lan_flatten(m, keys),
    decreases keys.len(),
{
    if keys.len() > 0 {
        let init = keys.drop_last();
        assert forall|i: int| 0 <= i < init.len() implies m1.contains_key(#[trigger] init[i]) && m1[init[i]] == m[init[i]] by {
            assert(init[i] == keys[i]);
        }
        lemma_lan_flatten_frame(m, m1, init);
        assert(m1[keys.last()] == m[keys[keys.len() - 1]]);
    }
}

/// Reading the neighbours' networks along `keys` gives, for each key in turn, the
/// networks filed under it, one neighbour's networks after the other's.
pub proof fn lemma_lan_flatten_concat(m: Map<u64, Seq<Ipv6Prefix>>, keys: Seq<u64>)
    ensures
        lan_flatten(m, keys) == keys.map_values(|k: u64| m[k]).flatten(),
    decreases keys.len(),
{
    let per = keys.map_values(|k: u64| m[k]);
    per.lemma_flatten_and_flatten_alt_are_equivalent();
    if keys.len() > 0 {
        lemma_lan_flatten_concat(m, keys.drop_last());
        let init = keys.drop_last().map_values(|k: u64| m[k]);
        init.lemma_flatten_and_flatten_alt_are_equivalent();
        assert(per.drop_last() =~= init);
        assert(per.last() == m[keys.last()]);
    } else {
        assert(per.flatten_alt() =~= Seq::<Ipv6Prefix>::empty());
    }
}

/// The networks of all neighbours, in the order that the state reads them out:
/// the networks of each neighbour in turn, neighbours in strictly increasing order
/// of MAC address, each neighbour of the table once.
pub proof fn lemma_all_lan_networks_order(m: Map<u64, Seq<Ipv6Prefix>>)
    requires
        keys_increasing(lan_keys(m.dom())),
        lan_keys(m.dom()).to_set() == m.dom(),
    ensures
        all_lan_networks(m) == lan_keys(m.dom()).map_values(|k: u64| m[k]).flatten(),
        forall|i: int, j: int| 0 <= i < j < lan_keys(m.dom()).len() ==> lan_keys(m.dom())[i] < lan_keys(m.dom())[j],
        forall|k: u64| m.contains_key(k) <==> lan_keys(m.dom()).contains(k),
{
    lemma_lan_flatten_concat(m, lan_keys(m.dom()));
    assert forall|k: u64| m.contains_key(k) <==> lan_keys(m.dom()).contains(k) by {
        assert(lan_keys(m.dom()).to_set().contains(k) == lan_keys(m.dom()).contains(k));
    }
}

} // verus!
