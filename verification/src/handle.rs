//! What the filter's commands compute: the batch that clears the nftables rules,
//! and the state that the end of a run resets once they are cleared.
use vstd::prelude::*;

use crate::bytes::{be_u128_at, be_value};
use crate::globals::{add_to_container, clear_container, clear_interface_name, Globals};
use crate::nft::{delete_nftables, is_filter_table, NftCommand};
use crate::prefix::{truncated, Ipv6Prefix};

verus! {

/// The batch of the `clear` command: the filter's table deleted.
pub fn handle_clear() -> (r: Vec<NftCommand>)
    ensures
        r@.len() == 1,
        r@[0] matches NftCommand::Delete(o) && is_filter_table(o),
{
    delete_nftables()
}

/// The end of a run, the step after the batch of `handle_clear` has deleted the
/// filter's table: the state forgets its interface and its networks. (Where that
/// batch fails, the caller stops before this step and the state stays as it was.)
pub fn handle_end(g: &mut Globals)
    requires
        old(g).wf(),
    ensures
        final(g).wf(),
        final(g).interface() is None,
        final(g).container() == Seq::<Ipv6Prefix>::empty(),
        final(g).lan() == old(g).lan(),
        final(g).blacklist() == old(g).blacklist(),
{
    clear_interface_name(g);
    clear_container(g);
}

/// Records the address given on the command line (its 16 bytes in network order)
/// in the list, as the network of that one address, and hands the bytes back.
pub fn get_prefix(g: &mut Globals, ipv6_prefix: [u8; 16]) -> (r: [u8; 16])
    requires
        old(g).wf(),
    ensures
        r == ipv6_prefix,
        final(g).wf(),
        final(g).container() == old(g).container().push(
            truncated(Ipv6Prefix { addr: be_value(ipv6_prefix@) as u128, prefix_len: 128 }),
        ),
        final(g).interface() == old(g).interface(),
        final(g).lan() == old(g).lan(),
        final(g).blacklist() == old(g).blacklist(),
{
    let addr = be_u128_at(ipv6_prefix.as_slice(), 0);
    assert(ipv6_prefix@.subrange(0, 16) == ipv6_prefix@);
    add_to_container(g, Ipv6Prefix { addr, prefix_len: 128 });
    ipv6_prefix
}

} // verus!
