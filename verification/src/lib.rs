//! A filter for IPv6 Router Advertisements: it reads the Prefix Information
//! options of each advertisement and decides whether the packet is let through,
//! against a list of allowed (or, in blacklist mode, blocked) prefixes.
#![allow(non_snake_case)]

pub mod bytes;
pub mod divert;
pub mod error;
pub mod globals;
pub mod handle;
pub mod nft;
pub mod packet;
pub mod prefix;
pub mod verdict;

use vstd::prelude::*;

use crate::prefix::Ipv6Prefix;

verus! {

/// A network interface, by what the filter reads of it: its name and its index.
#[derive(Debug)]
pub struct NetworkInterface {
    pub name: String,
    pub index: u32,
}

impl NetworkInterface {
    /// A copy of the interface.
    pub fn duplicate(&self) -> (r: NetworkInterface)
        ensures
            r == *self,
    {
        NetworkInterface { name: self.name.clone(), index: self.index }
    }
}

/// Whether every network of the list has a valid prefix length.
pub open spec fn all_wf(s: Seq<Ipv6Prefix>) -> bool {
    forall|i: int| 0 <= i < s.len() ==> (#[trigger] s[i]).wf()
}

/// What the filter runs with: the netfilter queue it reads, the mode, the
/// networks of the list, and the interface it is bound to (if any).
#[derive(Debug)]
pub struct AppState {
    pub queue_num: u16,
    pub blacklist_mode: bool,
    pub prefixes: Vec<Ipv6Prefix>,
    pub interface: Option<NetworkInterface>,
}

impl AppState {
    /// The networks of the list have valid prefix lengths.
    pub open spec fn wf(&self) -> bool {
        all_wf(self.prefixes@)
    }
}

impl Default for AppState {
    /// Queue 0, allow-list mode, no networks, no interface.
    fn default() -> (r: AppState)
        ensures
            r.queue_num == 0,
            !r.blacklist_mode,
            r.prefixes@ == Seq::<Ipv6Prefix>::empty(),
            r.interface is None,
    {
        AppState { queue_num: 0, blacklist_mode: false, prefixes: Vec::new(), interface: None }
    }
}

} // verus!
