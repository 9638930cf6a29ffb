//! IPv6 networks: an address and a prefix length, with the network
//! arithmetic that the filter needs (first and last address, containment,
//! truncation).
use vstd::arithmetic::div_mod::{
    lemma_basic_div, lemma_div_by_multiple, lemma_fundamental_div_mod, lemma_fundamental_div_mod_converse,
};
use vstd::arithmetic::power2::{
    lemma2_to64, lemma2_to64_rest, lemma_pow2_adds, lemma_pow2_pos, lemma_pow2_strictly_increases,
    lemma_pow2_unfold, pow2,
};
use vstd::prelude::*;

verus! {

/// An IPv6 network: a 128-bit address, read in network byte order, and a prefix length.
/// The address is kept as given; it is not masked to the network.
#[derive(Clone, Copy, Debug, PartialEq, Eq, Structural)]
pub struct Ipv6Prefix {
    pub addr: u128,
    pub prefix_len: u8,
}

impl Ipv6Prefix {
    /// A prefix length is at most 128.
    pub open spec fn wf(self) -> bool {
        self.prefix_len <= 128
    }
}

/// Number of addresses that a network of the given prefix length spans.
pub open spec fn block_size(prefix_len: u8) -> nat {
    pow2((128 - prefix_len) as nat)
}

/// The first address of the network (the address with its host bits cleared).
pub open spec fn network(p: Ipv6Prefix) -> int {
    (p.addr as int / block_size(p.prefix_len) as int) * block_size(p.prefix_len) as int
}

/// The last address of the network (the address with its host bits set).
pub open spec fn broadcast(p: Ipv6Prefix) -> int {
    network(p) + block_size(p.prefix_len) - 1
}

/// `outer` covers every address of `inner`.
pub open spec fn contains(outer: Ipv6Prefix, inner: Ipv6Prefix) -> bool {
    network(outer) <= network(inner) && broadcast(inner) <= broadcast(outer)
}

/// The network with its address truncated to the first address of the network.
pub open spec fn truncated(p: Ipv6Prefix) -> Ipv6Prefix {
    Ipv6Prefix { addr: network(p) as u128, prefix_len: p.prefix_len }
}

/// 2^128, one more than the largest address.
proof fn lemma_pow2_128()
    ensures
        pow2(128) == 0x1_0000_0000_0000_0000_0000_0000_0000_0000,
        pow2(127) == 0x8000_0000_0000_0000_0000_0000_0000_0000,
{
    lemma2_to64();
    lemma2_to64_rest();
    lemma_pow2_adds(64, 64);
    lemma_pow2_adds(64, 63);
}

/// The network's first address lies in `[0, addr]` and its last address below 2^128.
proof fn lemma_network_bounds(p: Ipv6Prefix)
    requires
        p.wf(),
    ensures
        0 <= network(p) <= p.addr,
        network(p) + block_size(p.prefix_len) <= pow2(128),
        p.addr <= broadcast(p) <= u128::MAX,
{
    let b = block_size(p.prefix_len) as int;
    let a = p.addr as int;
    lemma_pow2_pos((128 - p.prefix_len) as nat);
    lemma_fundamental_div_mod(a, b);
    assert(0 <= a % b < b);
    assert(a / b >= 0) by (nonlinear_arith)
        requires a >= 0, b > 0;
    assert((a / b) * b >= 0) by (nonlinear_arith)
        requires a / b >= 0, b > 0;
    lemma_pow2_128();
    // b divides 2^128
    lemma_pow2_adds(p.prefix_len as nat, (128 - p.prefix_len) as nat);
    let c = pow2(p.prefix_len as nat) as int;
    assert(c * b == pow2(128));
    // (a / b) < c, so (a / b) * b + b <= c * b
    assert(a / b < c) by (nonlinear_arith)
        requires a == b * (a / b) + a % b, 0 <= a % b, a < c * b, b > 0;
    assert((a / b) * b + b <= c * b) by (nonlinear_arith)
        requires a / b < c, b > 0;
}

/// 2^k as a machine integer, for k below 128.
fn pow2_u128(k: u8) -> (r: u128)
    requires
        k < 128,
    ensures
        r == pow2(k as nat),
{
    let mut r: u128 = 1;
    let mut i: u8 = 0;
    proof {
        lemma2_to64();
    }
    while i < k
        invariant
            i <= k < 128,
            r == pow2(i as nat),
        decreases k - i,
    {
        proof {
            lemma_pow2_unfold((i + 1) as nat);
            lemma_pow2_128();
            if i + 1 < 127 {
                lemma_pow2_strictly_increases((i + 1) as nat, 127);
            }
        }
        r = r * 2;
        i = i + 1;
    }
    r
}

impl Ipv6Prefix {
    /// A network from an address and a prefix length; a prefix length above 128
    /// is refused (as `Ipv6Net::new` does).
    pub fn new(addr: u128, prefix_len: u8) -> (r: Option<Ipv6Prefix>)
        ensures
            r == (if prefix_len <= 128 {
                Some(Ipv6Prefix { addr, prefix_len })
            } else {
                None
            }),
    {
        if prefix_len > 128 {
            None
        } else {
            Some(Ipv6Prefix { addr, prefix_len })
        }
    }

    /// The first address of the network.
    pub fn network_addr(&self) -> (r: u128)
        requires
            self.wf(),
        ensures
            r == network(*self),
    {
        proof {
            lemma_network_bounds(*self);
        }
        if self.prefix_len == 0 {
            proof {
                lemma_pow2_128();
                lemma_basic_div(self.addr as int, pow2(128) as int);
            }
            0
        } else {
            let block = pow2_u128(128 - self.prefix_len);
            proof {
                lemma_pow2_pos((128 - self.prefix_len) as nat);
                let a = self.addr as int;
                let b = block as int;
                lemma_fundamental_div_mod(a, b);
                assert((a / b) * b == a - a % b) by (nonlinear_arith)
                    requires a == b * (a / b) + a % b;
            }
            self.addr - self.addr % block
        }
    }

    /// The last address of the network.
    pub fn broadcast_addr(&self) -> (r: u128)
        requires
            self.wf(),
        ensures
            r == broadcast(*self),
    {
        proof {
            lemma_network_bounds(*self);
        }
        let n = self.network_addr();
        if self.prefix_len == 0 {
            proof {
                lemma_pow2_128();
            }
            u128::MAX
        } else {
            let block = pow2_u128(128 - self.prefix_len);
            n + (block - 1)
        }
    }

    /// Whether this network covers every address of `other` (as `Ipv6Net::contains`
    /// on two networks decides it).
    pub fn contains(&self, other: &Ipv6Prefix) -> (r: bool)
        requires
            self.wf(),
            other.wf(),
        ensures
            r == contains(*self, *other),
    {
        self.network_addr() <= other.network_addr() && other.broadcast_addr()
            <= self.broadcast_addr()
    }

    /// The same network with its address truncated to the network's first address
    /// (as `Ipv6Net::trunc` does).
    pub fn trunc(&self) -> (r: Ipv6Prefix)
        requires
            self.wf(),
        ensures
            r == truncated(*self),
            r.wf(),
    {
        Ipv6Prefix { addr: self.network_addr(), prefix_len: self.prefix_len }
    }
}

/// Truncating keeps the network: the truncated prefix has the same first and
/// last address as the untruncated one, so each contains the other, and truncating twice
/// changes nothing more.
pub proof fn lemma_trunc_same_network(p: Ipv6Prefix)
    requires
        p.wf(),
    ensures
        network(truncated(p)) == network(p),
        broadcast(truncated(p)) == broadcast(p),
        contains(p, truncated(p)),
        contains(truncated(p), p),
        truncated(truncated(p)) == truncated(p),
{
    lemma_network_bounds(p);
    let b = block_size(p.prefix_len) as int;
    lemma_pow2_pos((128 - p.prefix_len) as nat);
    let q = p.addr as int / b;
    assert(q >= 0) by (nonlinear_arith)
        requires p.addr as int >= 0, b > 0, q == p.addr as int / b;
    lemma_div_by_multiple(q, b);
    assert(truncated(p).addr as int == q * b);
}

/// The address `a` belongs to the network `p`: `a` and the network's address agree
/// on the network's first `prefix_len` bits.
pub open spec fn addr_in(p: Ipv6Prefix, a: u128) -> bool {
    a as int / pow2((128 - p.prefix_len) as nat) as int == p.addr as int / pow2(
        (128 - p.prefix_len) as nat,
    ) as int
}

/// An address belongs to a network exactly when it lies between the network's
/// first and last address.
pub proof fn lemma_addr_in_range(p: Ipv6Prefix, a: u128)
    requires
        p.wf(),
    ensures
        addr_in(p, a) <==> (network(p) <= a && a <= broadcast(p)),
{
    let b = block_size(p.prefix_len) as int;
    let q = p.addr as int / b;
    let x = a as int;
    lemma_pow2_pos((128 - p.prefix_len) as nat);
    lemma_fundamental_div_mod(x, b);
    if addr_in(p, a) {
        assert(x / b == q);
        assert(x == q * b + x % b) by (nonlinear_arith)
            requires x == b * (x / b) + x % b, x / b == q;
    }
    if network(p) <= x && x <= broadcast(p) {
        assert(network(p) == q * b);
        let r = x - q * b;
        assert(0 <= r < b);
        lemma_fundamental_div_mod_converse(x, b, q, r);
    }
}

/// One network contains another exactly when every address of the inner network
/// is an address of the outer one, whatever the two prefix lengths.
pub proof fn lemma_contains_means_every_address(outer: Ipv6Prefix, inner: Ipv6Prefix)
    requires
        outer.wf(),
        inner.wf(),
    ensures
        contains(outer, inner) <==> forall|a: u128| addr_in(inner, a) ==> #[trigger] addr_in(outer, a),
{
    lemma_network_bounds(inner);
    lemma_network_bounds(outer);
    if contains(outer, inner) {
        assert forall|a: u128| addr_in(inner, a) implies #[trigger] addr_in(outer, a) by {
            lemma_addr_in_range(inner, a);
            lemma_addr_in_range(outer, a);
        }
    }
    if forall|a: u128| addr_in(inner, a) ==> #[trigger] addr_in(outer, a) {
        let lo = network(inner) as u128;
        let hi = broadcast(inner) as u128;
        lemma_pow2_pos((128 - inner.prefix_len) as nat);
        lemma_addr_in_range(inner, lo);
        lemma_addr_in_range(inner, hi);
        assert(addr_in(outer, lo));
        assert(addr_in(outer, hi));
        lemma_addr_in_range(outer, lo);
        lemma_addr_in_range(outer, hi);
    }
}

/// The first address of a network is its least address and the last its greatest:
/// both belong to the network, and every address of the network lies between them.
pub proof fn lemma_first_and_last_address(p: Ipv6Prefix)
    requires
        p.wf(),
    ensures
        0 <= network(p) <= broadcast(p) <= u128::MAX,
        addr_in(p, network(p) as u128),
        addr_in(p, broadcast(p) as u128),
        forall|a: u128| #[trigger] addr_in(p, a) ==> network(p) <= a <= broadcast(p),
{
    lemma_network_bounds(p);
    lemma_pow2_pos((128 - p.prefix_len) as nat);
    lemma_addr_in_range(p, network(p) as u128);
    lemma_addr_in_range(p, broadcast(p) as u128);
    assert forall|a: u128| #[trigger] addr_in(p, a) implies network(p) <= a <= broadcast(p) by {
        lemma_addr_in_range(p, a);
    }
}

/// Truncating a network keeps its prefix length and its addresses, and sets its
/// address to the network's least address.
pub proof fn lemma_truncated_addresses(p: Ipv6Prefix)
    requires
        p.wf(),
    ensures
        truncated(p).prefix_len == p.prefix_len,
        forall|a: u128| #[trigger] addr_in(truncated(p), a) == addr_in(p, a),
        addr_in(p, truncated(p).addr),
        forall|a: u128| addr_in(p, a) ==> truncated(p).addr <= a,
{
    lemma_trunc_same_network(p);
    lemma_first_and_last_address(p);
    lemma_first_and_last_address(truncated(p));
    assert forall|a: u128| #[trigger] addr_in(truncated(p), a) == addr_in(p, a) by {
        lemma_addr_in_range(p, a);
        lemma_addr_in_range(truncated(p), a);
    }
}

/// Every network contains itself.
pub proof fn lemma_contains_reflexive(p: Ipv6Prefix)
    ensures
        contains(p, p),
{
}

/// Containment is transitive.
pub proof fn lemma_contains_transitive(a: Ipv6Prefix, b: Ipv6Prefix, c: Ipv6Prefix)
    requires
        contains(a, b),
        contains(b, c),
    ensures
        contains(a, c),
{
}

} // verus!
