//! The filter's decision on a packet: let it through (`Accept`) or drop it.
use vstd::prelude::*;

use crate::error::FilterError;
use crate::globals::{get_blacklist_mode, Globals};
use crate::bytes::be_value;
use crate::packet::{
    address_in_list, advertised_prefixes, all_fields_pass, announces, extract_prefixes, fields_pass,
    lemma_advertised_prefixes_members, option_network, pio_field, ra_options, ra_walkable,
    router_advert_options_of,
};
use crate::prefix::{contains, Ipv6Prefix};
use crate::{all_wf, AppState};

verus! {

/// What becomes of a packet.
#[derive(Clone, Copy, Debug, PartialEq, Eq, Structural)]
pub enum Verdict {
    /// The packet goes on.
    Accept,
    /// The packet is dropped.
    Drop,
}

/// Some network of the list covers `p`.
pub open spec fn in_list(list: Seq<Ipv6Prefix>, p: Ipv6Prefix) -> bool {
    exists|i: int| 0 <= i < list.len() && contains(list[i], p)
}

/// An advertised network may pass: in allow-list mode when the list covers it, in
/// blacklist mode when the list does not.
pub open spec fn prefix_allowed(list: Seq<Ipv6Prefix>, blacklist: bool, p: Ipv6Prefix) -> bool {
    if blacklist {
        !in_list(list, p)
    } else {
        in_list(list, p)
    }
}

/// With an empty list every packet passes, in either mode; otherwise a packet that
/// announces the networks `announced` passes when each of them may pass (so one
/// that announces none passes).
pub open spec fn prefixes_verdict(list: Seq<Ipv6Prefix>, blacklist: bool, announced: Seq<Ipv6Prefix>) -> Verdict {
    if list.len() == 0 {
        Verdict::Accept
    } else if forall|j: int| 0 <= j < announced.len() ==> prefix_allowed(list, blacklist, #[trigger] announced[j]) {
        Verdict::Accept
    } else {
        Verdict::Drop
    }
}

/// The verdict on a packet: by the networks that its Router Advertisement announces.
pub open spec fn packet_verdict_spec(list: Seq<Ipv6Prefix>, blacklist: bool, data: Seq<u8>) -> Verdict {
    prefixes_verdict(list, blacklist, advertised_prefixes(data))
}

/// Whether some network of the list covers `p`.
pub fn is_in_list(list: &Vec<Ipv6Prefix>, p: &Ipv6Prefix) -> (r: bool)
    requires
        all_wf(list@),
        p.wf(),
    ensures
        r == in_list(list@, *p),
{
    let mut i: usize = 0;
    while i < list.len()
        invariant
            i <= list@.len(),
            all_wf(list@),
            p.wf(),
            forall|j: int| 0 <= j < i ==> !contains(list@[j], *p),
        decreases list.len() - i,
    {
        if list[i].contains(p) {
            return true;
        }
        i = i + 1;
    }
    false
}

/// The verdict on a packet that announces the networks `announced`.
pub fn verdict_for_prefixes(list: &Vec<Ipv6Prefix>, blacklist_mode: bool, announced: &Vec<Ipv6Prefix>) -> (r: Verdict)
    requires
        all_wf(list@),
        all_wf(announced@),
    ensures
        r == prefixes_verdict(list@, blacklist_mode, announced@),
{
    if list.len() == 0 {
        return Verdict::Accept;
    }
    let mut j: usize = 0;
    while j < announced.len()
        invariant
            j <= announced@.len(),
            list@.len() > 0,
            all_wf(list@),
            all_wf(announced@),
            forall|k: int| 0 <= k < j ==> prefix_allowed(list@, blacklist_mode, #[trigger] announced@[k]),
        decreases announced.len() - j,
    {
        let is_in = is_in_list(list, &announced[j]);
        let allowed = if blacklist_mode {
            !is_in
        } else {
            is_in
        };
        if !allowed {
            assert(!prefix_allowed(list@, blacklist_mode, announced@[j as int]));
            return Verdict::Drop;
        }
        j = j + 1;
    }
    Verdict::Accept
}

/// The verdict on a packet: with an empty list every packet passes; otherwise a
/// Router Advertisement passes when every network that its Prefix Information
/// options announce may pass, and any other packet passes.
/// (The caller checks `ra_options_readable` first.)
pub fn packet_verdict(state: &AppState, data: &[u8]) -> (r: Verdict)
    requires
        state.wf(),
        ra_walkable(data@),
    ensures
        r == packet_verdict_spec(state.prefixes@, state.blacklist_mode, data@),
{
    let announced = extract_prefixes(data);
    if announced.len() == 0 {
        return Verdict::Accept;
    }
    verdict_for_prefixes(&state.prefixes, state.blacklist_mode, &announced)
}

/// Whether a packet may pass, from the mode and whether its network is on the list:
/// in allow-list mode when it is, in blacklist mode when it is not.
pub fn decide_verdict(blacklist_mode: bool, is_prefix_in_list: bool) -> (r: bool)
    ensures
        r == (blacklist_mode != is_prefix_in_list),
{
    match (blacklist_mode, is_prefix_in_list) {
        (false, true) => true,
        (true, false) => true,
        _ => false,
    }
}

/// The verdict by address lookup: a Router Advertisement passes when, for every
/// option with a prefix field, `decide_verdict` lets that field pass (looked up by
/// address in the list); any other packet passes.
pub open spec fn option_fields_verdict(list: Seq<Ipv6Prefix>, blacklist: bool, data: Seq<u8>) -> Verdict {
    match ra_options(data) {
        None => Verdict::Accept,
        Some(opts) => if fields_pass(list, !blacklist, false, opts) {
            Verdict::Accept
        } else {
            Verdict::Drop
        },
    }
}

/// The verdict on a packet by address lookup of the prefix field of every Prefix
/// Information option of its Router Advertisement, against the networks of the
/// shared state and its mode (see `option_fields_verdict`).
/// (The caller checks `ra_options_readable` first.)
pub fn handle_packet(g: &Globals, data: &[u8]) -> (r: Verdict)
    requires
        ra_walkable(data@),
    ensures
        r == option_fields_verdict(g.container(), g.blacklist(), data@),
{
    let ipv6_prefix = crate::globals::get_container_data(g);
    let opts = match router_advert_options_of(data) {
        Some(o) => o,
        None => return Verdict::Accept,
    };
    proof {
        crate::packet::lemma_ra_options_short(data@);
    }
    let blacklist_mode = get_blacklist_mode(g);
    if all_fields_pass(&ipv6_prefix, !blacklist_mode, false, &opts) {
        Verdict::Accept
    } else {
        Verdict::Drop
    }
}

/// How many times the packet-diversion loop sends the packet back on its way:
/// once when it passes by `option_fields_verdict` against the networks and the
/// mode of the shared state, never when it is refused.
/// (The caller checks `ra_options_readable` first.)
pub fn packet_send_count(g: &Globals, data: &[u8]) -> (r: usize)
    requires
        ra_walkable(data@),
    ensures
        r == (if option_fields_verdict(g.container(), g.blacklist(), data@) == Verdict::Accept {
            1usize
        } else {
            0usize
        }),
{
    match handle_packet(g, data) {
        Verdict::Accept => 1,
        Verdict::Drop => 0,
    }
}

/// Packet processing with a mode and a list of networks, where `filter_mode` set
/// means that the list holds the networks to let through.
#[derive(Debug)]
pub struct LinuxPacketProcessor {
    pub filter_mode: bool,
    pub filter: Vec<Ipv6Prefix>,
}

/// The decision of `analyze_packet`: a Router Advertisement passes when every
/// Prefix Information option with a 16-byte prefix field has one that is the
/// address of a network of the list exactly when `filter_mode` is set; options with
/// a prefix field of another size are passed over, and any other packet passes.
pub open spec fn analyze_spec(filter: Seq<Ipv6Prefix>, filter_mode: bool, data: Seq<u8>) -> bool {
    match ra_options(data) {
        None => true,
        Some(opts) => fields_pass(filter, filter_mode, true, opts),
    }
}

impl LinuxPacketProcessor {
    /// The networks of the list.
    pub fn filter(&self) -> (r: &Vec<Ipv6Prefix>)
        ensures
            r == &self.filter,
    {
        &self.filter
    }

    /// The mode.
    pub fn filter_mode(&self) -> (r: bool)
        ensures
            r == self.filter_mode,
    {
        self.filter_mode
    }

    /// Whether the packet passes (see `analyze_spec`). (The caller checks
    /// `ra_options_readable` first.)
    pub fn analyze_packet(&mut self, data: &[u8]) -> (r: Result<bool, FilterError>)
        requires
            ra_walkable(data@),
        ensures
            r matches Ok(b) && b == analyze_spec(old(self).filter@, old(self).filter_mode, data@),
            *final(self) == *old(self),
    {
        let opts = match router_advert_options_of(data) {
            Some(o) => o,
            None => return Ok(true),
        };
        proof {
            crate::packet::lemma_ra_options_short(data@);
        }
        let mode = self.filter_mode();
        Ok(all_fields_pass(self.filter(), mode, true, &opts))
    }
}

/// Some network of the list, at any position, contains `p`.
pub open spec fn covered(list: Seq<Ipv6Prefix>, p: Ipv6Prefix) -> bool {
    exists|i: int| 0 <= i < list.len() && #[trigger] contains(list[i], p)
}

/// Some network of the list, at any position, has the address that the bytes
/// `field` spell.
pub open spec fn listed_address(list: Seq<Ipv6Prefix>, field: Seq<u8>) -> bool {
    exists|i: int| 0 <= i < list.len() && #[trigger] list[i].addr == be_value(field)
}

/// An empty list lets every list of announced networks through. With a list that
/// is not empty, the verdict is `Accept` exactly when each announced network, at
/// every position, may pass: in allow-list mode each is contained in some listed
/// network (at any position), in blacklist mode none is.
pub proof fn lemma_prefixes_verdict_every_prefix(list: Seq<Ipv6Prefix>, blacklist: bool, announced: Seq<Ipv6Prefix>)
    ensures
        list.len() == 0 ==> prefixes_verdict(list, blacklist, announced) == Verdict::Accept,
        list.len() > 0 ==> ((prefixes_verdict(list, blacklist, announced) == Verdict::Accept) <==> forall|k: int|
            0 <= k < announced.len() ==> covered(list, #[trigger] announced[k]) != blacklist),
{
    let a = announced;
    if list.len() > 0 {
        assert forall|k: int| 0 <= k < a.len() implies prefix_allowed(list, blacklist, #[trigger] a[k])
            == (covered(list, a[k]) != blacklist) by {
            if covered(list, a[k]) {
                let i = choose|i: int| 0 <= i < list.len() && #[trigger] contains(list[i], a[k]);
                assert(in_list(list, a[k]));
            }
            if in_list(list, a[k]) {
                let i = choose|i: int| 0 <= i < list.len() && contains(list[i], a[k]);
                assert(covered(list, a[k]));
            }
        }
    }
}

/// An empty list lets every packet through. With a list that is not empty, a packet
/// passes exactly when each network that it announces, at every position, may pass:
/// in allow-list mode each is contained in some listed network, in blacklist mode
/// none is.
pub proof fn lemma_packet_verdict_every_prefix(list: Seq<Ipv6Prefix>, blacklist: bool, data: Seq<u8>)
    ensures
        list.len() == 0 ==> packet_verdict_spec(list, blacklist, data) == Verdict::Accept,
        list.len() > 0 ==> ((packet_verdict_spec(list, blacklist, data) == Verdict::Accept) <==> forall|k: int|
            0 <= k < advertised_prefixes(data).len() ==> covered(list, #[trigger] advertised_prefixes(data)[k])
                != blacklist),
{
    lemma_prefixes_verdict_every_prefix(list, blacklist, advertised_prefixes(data));
}

/// A Router Advertisement with an option that announces a network (see `announces`)
/// that may not pass is dropped, wherever that option stands among the options: in
/// allow-list mode, a network that no listed network contains; in blacklist mode,
/// one that a listed network contains.
pub proof fn lemma_packet_verdict_drops_by_option(list: Seq<Ipv6Prefix>, blacklist: bool, data: Seq<u8>, j: int)
    requires
        list.len() > 0,
        ra_options(data) matches Some(opts) && 0 <= j < opts.len() && announces(opts[j])
            && covered(list, option_network(opts[j])) == blacklist,
    ensures
        packet_verdict_spec(list, blacklist, data) == Verdict::Drop,
{
    let opts = ra_options(data)->0;
    lemma_advertised_prefixes_members(data);
    lemma_packet_verdict_every_prefix(list, blacklist, data);
    let a = advertised_prefixes(data);
    assert(announces(opts[j]));
    assert(a.contains(option_network(opts[j])));
    let k = choose|k: int| 0 <= k < a.len() && a[k] == option_network(opts[j]);
    assert(covered(list, a[k]) == blacklist);
}

/// The packet processor lets a Router Advertisement through exactly when, for
/// every option of type 3 at every position whose prefix field is 16 bytes (30
/// bytes of data), the field is the address of a network of the list (at any
/// position) exactly when `filter_mode` is set; any other packet passes.
pub proof fn lemma_analyze_every_option(filter: Seq<Ipv6Prefix>, filter_mode: bool, data: Seq<u8>)
    ensures
        ra_options(data) is None ==> analyze_spec(filter, filter_mode, data),
        ra_options(data) matches Some(opts) ==> (analyze_spec(filter, filter_mode, data) <==> forall|j: int|
            0 <= j < opts.len() && opts[j].0 == 3 && #[trigger] opts[j].2.len() == 30
                ==> listed_address(filter, opts[j].2.subrange(14, 30)) == filter_mode),
{
    if let Some(opts) = ra_options(data) {
        assert forall|j: int| 0 <= j < opts.len() implies #[trigger] pio_field(opts[j]) matches Some(f) ==> (
        f.len() == 16 ==> (address_in_list(filter, f) == filter_mode)) <==> (opts[j].0 == 3 && opts[j].2.len()
            == 30 ==> listed_address(filter, opts[j].2.subrange(14, 30)) == filter_mode) by {
            lemma_field_lookup(filter, opts[j]);
        }
        if analyze_spec(filter, filter_mode, data) {
            assert forall|j: int| 0 <= j < opts.len() && opts[j].0 == 3 && #[trigger] opts[j].2.len() == 30
                implies listed_address(filter, opts[j].2.subrange(14, 30)) == filter_mode by {
                assert(pio_field(opts[j]) matches Some(f) ==> (f.len() == 16 ==> (address_in_list(filter, f)
                    == filter_mode)));
            }
        }
        if forall|j: int| 0 <= j < opts.len() && opts[j].0 == 3 && #[trigger] opts[j].2.len() == 30
            ==> listed_address(filter, opts[j].2.subrange(14, 30)) == filter_mode {
            assert forall|j: int| 0 <= j < opts.len() implies #[trigger] pio_field(opts[j]) matches Some(f)
                ==> ((!true || f.len() == 16) ==> address_in_list(filter, f) == filter_mode) by {
                if opts[j].0 == 3 && opts[j].2.len() == 30 {
                    assert(listed_address(filter, opts[j].2.subrange(14, 30)) == filter_mode);
                }
            }
        }
    }
}

/// How the prefix field of one option is looked up: an option of type 3 with at
/// least 14 bytes of data has the field of its data after byte 14, which is 16
/// bytes exactly when the data are 30 bytes, and is found in the list exactly when
/// some network of the list has its address.
pub proof fn lemma_field_lookup(list: Seq<Ipv6Prefix>, o: (u8, u8, Seq<u8>))
    ensures
        pio_field(o) is Some <==> (o.0 == 3 && o.2.len() >= 14),
        pio_field(o) matches Some(f) ==> (f.len() == 16 <==> o.2.len() == 30),
        pio_field(o) matches Some(f) ==> (address_in_list(list, f) <==> (o.2.len() == 30 && listed_address(
            list,
            o.2.subrange(14, 30),
        ))),
{
    if let Some(f) = pio_field(o) {
        if o.2.len() == 30 {
            assert(f =~= o.2.subrange(14, 30));
            if address_in_list(list, f) {
                let i = choose|i: int| 0 <= i < list.len() && f.len() == 16 && be_value(f) == list[i].addr;
                assert(list[i].addr == be_value(o.2.subrange(14, 30)));
            }
            if listed_address(list, o.2.subrange(14, 30)) {
                let i = choose|i: int| 0 <= i < list.len() && #[trigger] list[i].addr == be_value(o.2.subrange(14, 30));
                assert(f.len() == 16 && be_value(f) == list[i].addr);
            }
        }
    }
}

/// The decision by address lookup lets a Router Advertisement through exactly when,
/// for every option of type 3 at every position with at least 14 bytes of data, its
/// prefix field is the 16-byte address of a network of the list (at any position)
/// exactly in allow-list mode; any other packet passes.
pub proof fn lemma_option_fields_every_option(list: Seq<Ipv6Prefix>, blacklist: bool, data: Seq<u8>)
    ensures
        ra_options(data) is None ==> option_fields_verdict(list, blacklist, data) == Verdict::Accept,
        ra_options(data) matches Some(opts) ==> ((option_fields_verdict(list, blacklist, data) == Verdict::Accept)
            <==> forall|j: int| 0 <= j < opts.len() && opts[j].0 == 3 && #[trigger] opts[j].2.len() >= 14
                ==> (opts[j].2.len() == 30 && listed_address(list, opts[j].2.subrange(14, 30))) != blacklist),
{
    if let Some(opts) = ra_options(data) {
        if fields_pass(list, !blacklist, false, opts) {
            assert forall|j: int| 0 <= j < opts.len() && opts[j].0 == 3 && #[trigger] opts[j].2.len() >= 14
                implies (opts[j].2.len() == 30 && listed_address(list, opts[j].2.subrange(14, 30))) != blacklist by {
                lemma_field_lookup(list, opts[j]);
                assert(pio_field(opts[j]) matches Some(f) ==> ((!false || f.len() == 16) ==> address_in_list(list, f)
                    == !blacklist));
            }
        }
        if forall|j: int| 0 <= j < opts.len() && opts[j].0 == 3 && #[trigger] opts[j].2.len() >= 14
            ==> (opts[j].2.len() == 30 && listed_address(list, opts[j].2.subrange(14, 30))) != blacklist {
            assert forall|j: int| 0 <= j < opts.len() implies #[trigger] pio_field(opts[j]) matches Some(f)
                ==> ((!false || f.len() == 16) ==> address_in_list(list, f) == !blacklist) by {
                lemma_field_lookup(list, opts[j]);
                if opts[j].0 == 3 && opts[j].2.len() >= 14 {
                    assert((opts[j].2.len() == 30 && listed_address(list, opts[j].2.subrange(14, 30))) != blacklist);
                }
            }
        }
    }
}

/// A packet that is no Router Advertisement passes, whatever the list and the mode,
/// under each of the decisions: by network, by address lookup, and that of the
/// packet processor.
pub proof fn lemma_non_advertisement_passes(list: Seq<Ipv6Prefix>, blacklist: bool, data: Seq<u8>)
    requires
        ra_options(data) is None,
    ensures
        packet_verdict_spec(list, blacklist, data) == Verdict::Accept,
        option_fields_verdict(list, blacklist, data) == Verdict::Accept,
        analyze_spec(list, !blacklist, data),
{
}

/// A packet that announces no network passes, whatever the list and the mode.
pub proof fn lemma_no_announcement_passes(list: Seq<Ipv6Prefix>, blacklist: bool, data: Seq<u8>)
    requires
        advertised_prefixes(data).len() == 0,
    ensures
        packet_verdict_spec(list, blacklist, data) == Verdict::Accept,
{
}

/// The two modes decide opposite ways on each network: a network may pass in
/// blacklist mode exactly when it may not in allow-list mode; so, with a list that
/// is not empty, a packet that announces a single network passes in exactly one of
/// the two modes.
pub proof fn lemma_modes_opposite(list: Seq<Ipv6Prefix>, p: Ipv6Prefix)
    ensures
        prefix_allowed(list, true, p) == !prefix_allowed(list, false, p),
        prefix_allowed(list, true, p) == decide_spec(true, in_list(list, p)),
        prefix_allowed(list, false, p) == decide_spec(false, in_list(list, p)),
        list.len() > 0 ==> prefixes_verdict(list, true, seq![p]) != prefixes_verdict(list, false, seq![p]),
{
    assert(seq![p][0] == p);
}

/// What `decide_verdict` computes.
pub open spec fn decide_spec(blacklist_mode: bool, is_prefix_in_list: bool) -> bool {
    blacklist_mode != is_prefix_in_list
}

/// Every network of `small` is a network of `big`.
pub open spec fn sublist(small: Seq<Ipv6Prefix>, big: Seq<Ipv6Prefix>) -> bool {
    forall|i: int| 0 <= i < small.len() ==> exists|j: int| 0 <= j < big.len() && big[j] == #[trigger] small[i]
}

/// Adding networks to a list that is not empty never drops more in allow-list
/// mode: a packet that passes with it passes with any longer list; and in blacklist
/// mode a packet that passes with a list passes with any shorter one.
pub proof fn lemma_longer_list(small: Seq<Ipv6Prefix>, big: Seq<Ipv6Prefix>, announced: Seq<Ipv6Prefix>)
    requires
        sublist(small, big),
    ensures
        small.len() > 0 && prefixes_verdict(small, false, announced) == Verdict::Accept
            ==> prefixes_verdict(big, false, announced) == Verdict::Accept,
        prefixes_verdict(big, true, announced) == Verdict::Accept ==> prefixes_verdict(small, true, announced) == Verdict::Accept,
{
    assert forall|p: Ipv6Prefix| in_list(small, p) implies in_list(big, p) by {
        let i = choose|i: int| 0 <= i < small.len() && contains(small[i], p);
        let j = choose|j: int| 0 <= j < big.len() && big[j] == small[i];
        assert(contains(big[j], p));
    }
    if small.len() > 0 && prefixes_verdict(small, false, announced) == Verdict::Accept {
        assert(big.len() > 0) by {
            let j = choose|j: int| 0 <= j < big.len() && big[j] == small[0];
        }
        assert forall|k: int| 0 <= k < announced.len() implies prefix_allowed(big, false, #[trigger] announced[k]) by {
            assert(prefix_allowed(small, false, announced[k]));
        }
    }
    if prefixes_verdict(big, true, announced) == Verdict::Accept && small.len() > 0 {
        assert(big.len() > 0) by {
            let j = choose|j: int| 0 <= j < big.len() && big[j] == small[0];
        }
        assert forall|k: int| 0 <= k < announced.len() implies prefix_allowed(small, true, #[trigger] announced[k]) by {
            assert(prefix_allowed(big, true, announced[k]));
        }
    }
}

/// In allow-list mode, a packet that announces only networks of the list passes;
/// in blacklist mode, a packet that announces a network of the list is dropped.
pub proof fn lemma_listed_networks(list: Seq<Ipv6Prefix>, announced: Seq<Ipv6Prefix>)
    ensures
        (forall|k: int| 0 <= k < announced.len() ==> list.contains(#[trigger] announced[k]))
            ==> prefixes_verdict(list, false, announced) == Verdict::Accept,
        (exists|k: int| 0 <= k < announced.len() && list.contains(#[trigger] announced[k]))
            ==> prefixes_verdict(list, true, announced) == Verdict::Drop,
{
    if forall|k: int| 0 <= k < announced.len() ==> list.contains(#[trigger] announced[k]) {
        assert forall|k: int| 0 <= k < announced.len() implies prefix_allowed(list, false, #[trigger] announced[k]) by {
            assert(list.contains(announced[k]));
            let i = choose|i: int| 0 <= i < list.len() && list[i] == announced[k];
            assert(contains(list[i], announced[k]));
        }
    }
    if exists|k: int| 0 <= k < announced.len() && list.contains(#[trigger] announced[k]) {
        let k = choose|k: int| 0 <= k < announced.len() && list.contains(#[trigger] announced[k]);
        let i = choose|i: int| 0 <= i < list.len() && list[i] == announced[k];
        assert(contains(list[i], announced[k]));
        assert(!prefix_allowed(list, true, announced[k]));
    }
}

/// With an empty list every packet passes, in either mode.
pub proof fn lemma_empty_list(announced: Seq<Ipv6Prefix>)
    ensures
        prefixes_verdict(Seq::empty(), true, announced) == Verdict::Accept,
        prefixes_verdict(Seq::empty(), false, announced) == Verdict::Accept,
{
}

} // verus!
